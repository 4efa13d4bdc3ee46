//! The session table of one kind of entity, and what a frame does to it.
//!
//! The table is the only owner of its entities: events carry copies. How a
//! known entity moves on from one observation to the next is the host's
//! concern; the table decides when to ask, with what, and where the answer
//! goes.

use vstd::prelude::*;
use crate::decode::{dec_packet, decode};
use crate::errors::TuioError;
use crate::frame::{assemble, faults, gathered, Fault, Frame, FrameModel};
use crate::lifecycle::lemma_frame_is_orderly;
use crate::profile::Profile;

verus! {

/// One live entity: its session, when it was last observed, and its state.
#[derive(Debug, Clone, Copy, PartialEq, Eq)]
pub struct Entry<A> {
    pub session_id: i32,
    /// The time of the last observation, on the host's clock.
    pub seen_at: u64,
    pub state: A,
}

/// What happened to one session in one frame, with a copy of the entity.
#[derive(Debug, Clone, Copy, PartialEq, Eq)]
pub enum Event<A> {
    /// The session appeared.
    Add(i32, A),
    /// The session was observed again.
    Update(i32, A),
    /// The session is gone; the entity is as it was last known.
    Remove(i32, A),
}

impl<A> Event<A> {
    /// The session the event is about.
    pub open spec fn session(self) -> i32 {
        match self {
            Event::Add(id, _) => id,
            Event::Update(id, _) => id,
            Event::Remove(id, _) => id,
        }
    }
}

/// The mathematical value of a session table.
pub struct TableModel<A> {
    /// The live entities, oldest session first.
    pub entries: Seq<Entry<A>>,
    /// The sequence number of the last sequenced frame accepted, or a
    /// negative number before the first.
    pub last_fseq: i32,
}

/// The first position at or after `from` that holds the session `id`, or
/// the length of `entries` if none does.
pub open spec fn find_from<A>(entries: Seq<Entry<A>>, id: i32, from: int) -> int
    decreases entries.len() - from,
{
    if 0 <= from < entries.len() && entries[from].session_id != id {
        find_from(entries, id, from + 1)
    } else {
        from
    }
}

/// Where the session `id` stands in `entries`, or their length if it is not
/// there.
pub open spec fn slot<A>(entries: Seq<Entry<A>>, id: i32) -> int {
    find_from(entries, id, 0)
}

/// The session `id` is in `entries`.
pub open spec fn known<A>(entries: Seq<Entry<A>>, id: i32) -> bool {
    slot(entries, id) < entries.len()
}

/// No session stands twice in `entries`.
pub open spec fn distinct<A>(entries: Seq<Entry<A>>) -> bool {
    forall|i: int, j: int|
        0 <= i < j < entries.len() ==> entries[i].session_id != entries[j].session_id
}

impl<A> TableModel<A> {
    /// The table before any frame.
    pub open spec fn empty() -> TableModel<A> {
        TableModel { entries: Seq::empty(), last_fseq: -1i32 }
    }

    pub open spec fn wf(self) -> bool {
        distinct(self.entries)
    }
}

/// The frame's alive list does not rule the session out: it names the
/// session, or there is no list.
pub open spec fn listed(alive: Option<Seq<i32>>, id: i32) -> bool {
    match alive {
        Some(ids) => ids.contains(id),
        None => true,
    }
}

/// A frame numbered `fseq` comes too late after one numbered `last`.
pub open spec fn stale(last: i32, fseq: i32) -> bool {
    0 <= fseq <= last
}

/// The table and the reports while the `set` messages of a frame are taken
/// in, one after the other.
pub struct Phase<A> {
    pub entries: Seq<Entry<A>>,
    pub adds: Seq<Event<A>>,
    pub updates: Seq<Event<A>>,
    pub faults: Seq<Fault>,
}

/// `faults`, with one more where the set at `i` is for a session that the
/// alive list rules out.
pub open spec fn noted(faults: Seq<Fault>, i: int, id: i32, alive: Option<Seq<i32>>) -> Seq<
    Fault,
> {
    if listed(alive, id) {
        faults
    } else {
        faults.push(Fault { index: i as usize, error: TuioError::SessionInconsistency })
    }
}

/// The set for `id` meets an entity that was observed before `now`: the
/// host is asked how it moved on.
pub open spec fn asks<A>(entries: Seq<Entry<A>>, id: i32, now: u64) -> bool {
    known(entries, id) && entries[slot(entries, id)].seen_at < now
}

/// What one `set` does. An unknown session is created as observed. A known
/// one, last observed before `now`, takes the state `r` that the host derived.
/// A known one observed at `now` or later is left alone, and the set is
/// reported as a format error: no time has passed to derive motion from.
pub open spec fn apply_set<A>(
    ph: Phase<A>,
    i: int,
    set: (i32, A),
    now: u64,
    r: A,
    alive: Option<Seq<i32>>,
) -> Phase<A> {
    let id = set.0;
    let p = slot(ph.entries, id);
    if !known(ph.entries, id) {
        Phase {
            entries: ph.entries.push(Entry { session_id: id, seen_at: now, state: set.1 }),
            adds: ph.adds.push(Event::Add(id, set.1)),
            faults: noted(ph.faults, i, id, alive),
            ..ph
        }
    } else if ph.entries[p].seen_at < now {
        Phase {
            entries: ph.entries.update(p, Entry { session_id: id, seen_at: now, state: r }),
            updates: ph.updates.push(Event::Update(id, r)),
            faults: noted(ph.faults, i, id, alive),
            ..ph
        }
    } else {
        Phase {
            faults: ph.faults.push(Fault { index: i as usize, error: TuioError::FormatError }),
            ..ph
        }
    }
}

/// What the first `k` sets of a frame do to `start`, where `rs[i]` is the
/// state that the host derived for the set at `i`, if it was asked.
pub open spec fn apply_sets<A>(
    start: Seq<Entry<A>>,
    sets: Seq<(i32, A)>,
    now: u64,
    rs: Seq<A>,
    alive: Option<Seq<i32>>,
    k: int,
) -> Phase<A>
    decreases k,
{
    if k <= 0 {
        Phase { entries: start, adds: Seq::empty(), updates: Seq::empty(), faults: Seq::empty() }
    } else {
        apply_set(apply_sets(start, sets, now, rs, alive, k - 1), k - 1, sets[k - 1], now, rs[k - 1], alive)
    }
}

/// The entity at `p` leaves with this frame: it was in the table before the
/// frame, and the alive list rules it out. What the frame itself created
/// stays until a later frame.
pub open spec fn leaves<A>(e: Entry<A>, p: int, base: int, alive: Option<Seq<i32>>) -> bool {
    p < base && !listed(alive, e.session_id)
}

/// Those of the first `k` entries that stay.
pub open spec fn kept<A>(entries: Seq<Entry<A>>, base: int, alive: Option<Seq<i32>>, k: int) -> Seq<
    Entry<A>,
>
    decreases k,
{
    if k <= 0 {
        Seq::empty()
    } else if leaves(entries[k - 1], k - 1, base, alive) {
        kept(entries, base, alive, k - 1)
    } else {
        kept(entries, base, alive, k - 1).push(entries[k - 1])
    }
}

/// A remove event for each of the first `k` entries that leaves, in order.
pub open spec fn removed<A>(
    entries: Seq<Entry<A>>,
    base: int,
    alive: Option<Seq<i32>>,
    k: int,
) -> Seq<Event<A>>
    decreases k,
{
    if k <= 0 {
        Seq::empty()
    } else if leaves(entries[k - 1], k - 1, base, alive) {
        removed(entries, base, alive, k - 1).push(
            Event::Remove(entries[k - 1].session_id, entries[k - 1].state),
        )
    } else {
        removed(entries, base, alive, k - 1)
    }
}

/// What an accepted frame leaves behind.
pub struct Outcome<A> {
    pub table: TableModel<A>,
    pub events: Seq<Event<A>>,
    pub faults: Seq<Fault>,
}

/// What the frame `f`, accepted at `now`, does to the table `t`, where
/// `rs[i]` is the state that the host derived for the set at `i`, if it was
/// asked.
///
/// The sets are taken in first, in order. Then every entity that was in the
/// table before the frame and that the alive list rules out leaves. The
/// events are the adds, then the updates, then the removes. A sequenced
/// frame leaves its number behind.
pub open spec fn reconcile<A>(t: TableModel<A>, f: FrameModel<A>, now: u64, rs: Seq<A>) -> Outcome<
    A,
> {
    let ph = apply_sets(t.entries, f.sets, now, rs, f.alive, f.sets.len() as int);
    let base = t.entries.len() as int;
    let n = ph.entries.len() as int;
    Outcome {
        table: TableModel {
            entries: kept(ph.entries, base, f.alive, n),
            last_fseq: if f.fseq >= 0 {
                f.fseq
            } else {
                t.last_fseq
            },
        },
        events: ph.adds + ph.updates + removed(ph.entries, base, f.alive, n),
        faults: ph.faults,
    }
}

/// Each state in `rs` that stands for an answer of the host is one that
/// `update` can give: for the set at `i`, where it meets an entity observed
/// before `now`, `rs[i]` is a result of `update` on that entity's state, the
/// entity as the set observed it, and the time between.
pub open spec fn answers<A, F: Fn(A, A, u64) -> A>(
    update: F,
    start: Seq<Entry<A>>,
    sets: Seq<(i32, A)>,
    now: u64,
    rs: Seq<A>,
    alive: Option<Seq<i32>>,
    k: int,
) -> bool {
    forall|i: int|
        0 <= i < k ==> {
            let before = #[trigger] apply_sets(start, sets, now, rs, alive, i).entries;
            asks(before, sets[i].0, now) ==> call_ensures(
                update,
                (
                    before[slot(before, sets[i].0)].state,
                    sets[i].1,
                    (now - before[slot(before, sets[i].0)].seen_at) as u64,
                ),
                rs[i],
            )
        }
}

/// The frame `f` was accepted at `now`: the table went from `t` to `after`
/// and `events` and `faults` were reported, as `reconcile` says for some
/// states that `update` can give where the host was asked.
pub open spec fn accepted<A, F: Fn(A, A, u64) -> A>(
    update: F,
    t: TableModel<A>,
    f: FrameModel<A>,
    now: u64,
    after: TableModel<A>,
    events: Seq<Event<A>>,
    faults: Seq<Fault>,
) -> bool {
    exists|rs: Seq<A>|
        {
            &&& rs.len() == f.sets.len()
            &&& answers(update, t.entries, f.sets, now, rs, f.alive, f.sets.len() as int)
            &&& #[trigger] reconcile(t, f, now, rs) == (Outcome { table: after, events, faults })
        }
}

/// What `find_from` finds: nothing before it holds the session, and it
/// holds the session unless it is the end.
pub proof fn lemma_find_from<A>(entries: Seq<Entry<A>>, id: i32, from: int)
    requires
        0 <= from <= entries.len(),
    ensures
        from <= find_from(entries, id, from) <= entries.len(),
        forall|i: int| from <= i < find_from(entries, id, from) ==> entries[i].session_id != id,
        find_from(entries, id, from) < entries.len() ==> entries[find_from(
            entries,
            id,
            from,
        )].session_id == id,
    decreases entries.len() - from,
{
    if from < entries.len() && entries[from].session_id != id {
        lemma_find_from(entries, id, from + 1);
    }
}

/// The states derived for later sets do not matter to earlier ones.
pub proof fn lemma_apply_sets_agree<A>(
    start: Seq<Entry<A>>,
    sets: Seq<(i32, A)>,
    now: u64,
    rs1: Seq<A>,
    rs2: Seq<A>,
    alive: Option<Seq<i32>>,
    k: int,
)
    requires
        forall|i: int| 0 <= i < k ==> rs1[i] == rs2[i],
    ensures
        apply_sets(start, sets, now, rs1, alive, k) == apply_sets(start, sets, now, rs2, alive, k),
    decreases k,
{
    if k > 0 {
        lemma_apply_sets_agree(start, sets, now, rs1, rs2, alive, k - 1);
    }
}

/// The sessions of one kind of entity from one source, and the sequence
/// number of the last frame accepted.
pub struct SessionTable<A> {
    entries: Vec<Entry<A>>,
    last_fseq: i32,
}

impl<A> SessionTable<A> {
    #[verifier::type_invariant]
    spec fn in_order(self) -> bool {
        distinct(self.entries@)
    }
}

impl<A> View for SessionTable<A> {
    type V = TableModel<A>;

    closed spec fn view(&self) -> TableModel<A> {
        TableModel { entries: self.entries@, last_fseq: self.last_fseq }
    }
}

/// What an accepted frame did: the lifecycle events, adds first, then
/// updates, then removes; and the sets that were refused or doubtful.
#[derive(Debug, Clone, PartialEq, Eq)]
pub struct FrameReport<A> {
    pub events: Vec<Event<A>>,
    pub faults: Vec<Fault>,
}

/// What one packet did to one table.
#[derive(Debug, Clone, PartialEq, Eq)]
pub struct PacketReport<A> {
    /// The lifecycle events: adds, then updates, then removes.
    pub events: Vec<Event<A>>,
    /// The malformed messages for this kind, by their place in the packet.
    pub dropped: Vec<Fault>,
    /// The sets that were refused or doubtful, by their place among the
    /// sets of the frame.
    pub faults: Vec<Fault>,
}

fn find<A>(entries: &Vec<Entry<A>>, id: i32) -> (p: usize)
    ensures
        p == slot(entries@, id),
        p <= entries@.len(),
{
    let mut p: usize = 0;
    while p < entries.len() && entries[p].session_id != id
        invariant
            p <= entries@.len(),
            find_from(entries@, id, 0) == find_from(entries@, id, p as int),
        decreases entries@.len() - p,
    {
        p += 1;
    }
    p
}

fn names(ids: &Vec<i32>, id: i32) -> (r: bool)
    ensures
        r == ids@.contains(id),
{
    let mut k: usize = 0;
    while k < ids.len()
        invariant
            k <= ids@.len(),
            forall|i: int| 0 <= i < k ==> ids@[i] != id,
        decreases ids@.len() - k,
    {
        if ids[k] == id {
            return true;
        }
        k += 1;
    }
    false
}

fn is_listed(alive: &Option<Vec<i32>>, id: i32) -> (r: bool)
    ensures
        r == listed(
            match *alive {
                Some(ids) => Some(ids@),
                None => None,
            },
            id,
        ),
{
    match alive {
        Some(ids) => names(ids, id),
        None => true,
    }
}

impl<A: Copy> SessionTable<A> {
    /// The table before any frame: no session, no frame accepted.
    pub fn new() -> (t: SessionTable<A>)
        ensures
            t@ == TableModel::<A>::empty(),
    {
        SessionTable { entries: Vec::new(), last_fseq: -1 }
    }

    /// How many sessions are live.
    pub fn len(&self) -> (n: usize)
        ensures
            n == self@.entries.len(),
    {
        self.entries.len()
    }

    /// Whether the session `id` is live.
    pub fn contains(&self, id: i32) -> (r: bool)
        ensures
            r == known(self@.entries, id),
    {
        find(&self.entries, id) < self.entries.len()
    }

    /// A copy of the entity of session `id`, if the session is live.
    pub fn get(&self, id: i32) -> (r: Option<A>)
        ensures
            r == if known(self@.entries, id) {
                Some(self@.entries[slot(self@.entries, id)].state)
            } else {
                None
            },
    {
        let p: usize = find(&self.entries, id);
        if p < self.entries.len() {
            Some(self.entries[p].state)
        } else {
            None
        }
    }

    /// The sequence number of the last sequenced frame accepted, negative
    /// before the first.
    pub fn last_fseq(&self) -> (f: i32)
        ensures
            f == self@.last_fseq,
    {
        self.last_fseq
    }

    /// A copy of the live entries, oldest session first.
    pub fn entries(&self) -> (r: Vec<Entry<A>>)
        ensures
            r@ == self@.entries,
    {
        let mut out: Vec<Entry<A>> = Vec::new();
        let mut k: usize = 0;
        while k < self.entries.len()
            invariant
                k <= self.entries@.len(),
                out@ == self.entries@.subrange(0, k as int),
            decreases self.entries@.len() - k,
        {
            out.push(self.entries[k]);
            k += 1;
            assert(out@ =~= self.entries@.subrange(0, k as int));
        }
        assert(out@ =~= self.entries@);
        out
    }
}

impl<A: Copy> SessionTable<A> {
    /// Takes one frame, observed at `now` on the host's clock.
    ///
    /// A frame whose sequence number is not newer than the last accepted is
    /// stale: nothing changes and nothing is reported but that. Any other
    /// frame is accepted. Its sets create the sessions that are new and move
    /// the known ones on, by the state that `update` derives from the
    /// previous state, the new observation and the time between. A set for a
    /// session already observed at `now` or later is refused alone. Then the
    /// sessions that the alive list no longer names are removed.
    pub fn process_frame<F: Fn(A, A, u64) -> A>(&mut self, frame: &Frame<A>, now: u64, update: F) -> (r:
        Result<FrameReport<A>, TuioError>)
        requires
            forall|prev: A, seen: A, elapsed: u64|
                elapsed > 0 ==> call_requires(update, (prev, seen, elapsed)),
        ensures
            old(self)@.wf(),
            final(self)@.wf(),
            stale(old(self)@.last_fseq, frame@.fseq) ==> r == Err::<FrameReport<A>, TuioError>(
                TuioError::StaleFrame,
            ) && final(self)@ == old(self)@,
            !stale(old(self)@.last_fseq, frame@.fseq) ==> (r matches Ok(report) && accepted(
                update,
                old(self)@,
                frame@,
                now,
                final(self)@,
                report.events@,
                report.faults@,
            )),
    {
        proof {
            use_type_invariant(&*self);
        }
        if frame.fseq >= 0 && frame.fseq <= self.last_fseq {
            return Err(TuioError::StaleFrame);
        }
        let mut work: Vec<Entry<A>> = self.entries();
        let ghost start = self.entries@;
        let ghost sets = frame@.sets;
        let ghost alive = frame@.alive;
        let base: usize = work.len();
        let mut adds: Vec<Event<A>> = Vec::new();
        let mut updates: Vec<Event<A>> = Vec::new();
        let mut faults: Vec<Fault> = Vec::new();
        let ghost mut rs: Seq<A> = Seq::empty();
        let mut k: usize = 0;
        while k < frame.sets.len()
            invariant
                k <= frame.sets@.len(),
                sets == frame@.sets,
                alive == frame@.alive,
                rs.len() == k,
                forall|prev: A, seen: A, elapsed: u64|
                    elapsed > 0 ==> call_requires(update, (prev, seen, elapsed)),
                work@ == apply_sets(start, sets, now, rs, alive, k as int).entries,
                adds@ == apply_sets(start, sets, now, rs, alive, k as int).adds,
                updates@ == apply_sets(start, sets, now, rs, alive, k as int).updates,
                faults@ == apply_sets(start, sets, now, rs, alive, k as int).faults,
                answers(update, start, sets, now, rs, alive, k as int),
            decreases frame.sets@.len() - k,
        {
            let ghost before = rs;
            let (id, seen) = frame.sets[k];
            let p: usize = find(&work, id);
            let in_list: bool = is_listed(&frame.alive, id);
            let ghost answer: A = seen;
            if p >= work.len() {
                work.push(Entry { session_id: id, seen_at: now, state: seen });
                adds.push(Event::Add(id, seen));
                if !in_list {
                    faults.push(Fault { index: k, error: TuioError::SessionInconsistency });
                }
            } else if work[p].seen_at < now {
                let prev: A = work[p].state;
                let elapsed: u64 = now - work[p].seen_at;
                let next: A = update(prev, seen, elapsed);
                work.set(p, Entry { session_id: id, seen_at: now, state: next });
                updates.push(Event::Update(id, next));
                if !in_list {
                    faults.push(Fault { index: k, error: TuioError::SessionInconsistency });
                }
                proof {
                    answer = next;
                }
            } else {
                faults.push(Fault { index: k, error: TuioError::FormatError });
            }
            proof {
                rs = before.push(answer);
                assert forall|i: int| 0 <= i <= k implies #[trigger] apply_sets(
                    start,
                    sets,
                    now,
                    rs,
                    alive,
                    i,
                ) == apply_sets(start, sets, now, before, alive, i) by {
                    lemma_apply_sets_agree(start, sets, now, rs, before, alive, i);
                }
                assert(apply_sets(start, sets, now, rs, alive, k as int) == apply_sets(
                    start,
                    sets,
                    now,
                    before,
                    alive,
                    k as int,
                ));
            }
            k += 1;
        }
        let ghost mid = work@;
        let mut stay: Vec<Entry<A>> = Vec::new();
        let mut removes: Vec<Event<A>> = Vec::new();
        let mut p: usize = 0;
        while p < work.len()
            invariant
                p <= work@.len(),
                work@ == mid,
                alive == frame@.alive,
                stay@ == kept(mid, base as int, alive, p as int),
                removes@ == removed(mid, base as int, alive, p as int),
            decreases work@.len() - p,
        {
            let e: Entry<A> = work[p];
            if p < base && !is_listed(&frame.alive, e.session_id) {
                removes.push(Event::Remove(e.session_id, e.state));
            } else {
                stay.push(e);
            }
            p += 1;
        }
        proof {
            lemma_frame_is_orderly(old(self)@, frame@, now, rs);
            assert(stay@ == reconcile(old(self)@, frame@, now, rs).table.entries);
        }
        self.entries = stay;
        if frame.fseq >= 0 {
            self.last_fseq = frame.fseq;
        }
        let mut events: Vec<Event<A>> = adds;
        events.append(&mut updates);
        events.append(&mut removes);
        proof {
            let out = reconcile(old(self)@, frame@, now, rs);
            assert(out.table == self@);
            assert(out.events =~= events@);
            assert(out.faults == faults@);
        }
        Ok(FrameReport { events, faults })
    }
}

impl<P: Profile + Copy> SessionTable<P> {
    /// Takes the bytes of one packet, received at `now` on the host's clock:
    /// decodes them, gathers the frame they hold for this kind, and takes the
    /// frame as `process_frame` does.
    ///
    /// Bytes that are not one well-formed packet are a format error, and a
    /// frame that is not newer than the last one accepted is stale: either
    /// way the table stays as it was. Otherwise the malformed messages for
    /// this kind are reported beside the events of the frame.
    pub fn feed<F: Fn(P, P, u64) -> P>(&mut self, packet: &[u8], now: u64, update: F) -> (r: Result<
        PacketReport<P>,
        TuioError,
    >)
        requires
            forall|prev: P, seen: P, elapsed: u64|
                elapsed > 0 ==> call_requires(update, (prev, seen, elapsed)),
        ensures
            old(self)@.wf(),
            final(self)@.wf(),
            match dec_packet(packet@) {
                None => final(self)@ == old(self)@ && r == Err::<PacketReport<P>, TuioError>(
                    TuioError::FormatError,
                ),
                Some(ms) => {
                    let frame = gathered::<P>(ms, ms.len() as int);
                    if stale(old(self)@.last_fseq, frame.fseq) {
                        final(self)@ == old(self)@ && r == Err::<PacketReport<P>, TuioError>(
                            TuioError::StaleFrame,
                        )
                    } else {
                        r matches Ok(report) && report.dropped@ == faults::<P>(
                            ms,
                            ms.len() as int,
                        ) && accepted(
                            update,
                            old(self)@,
                            frame,
                            now,
                            final(self)@,
                            report.events@,
                            report.faults@,
                        )
                    }
                },
            },
    {
        proof {
            use_type_invariant(&*self);
        }
        let messages = match decode(packet) {
            Ok(messages) => messages,
            Err(e) => {
                return Err(e);
            },
        };
        let (frame, dropped) = assemble::<P>(&messages);
        match self.process_frame(&frame, now, update) {
            Ok(report) => Ok(
                PacketReport { events: report.events, dropped, faults: report.faults },
            ),
            Err(e) => Err(e),
        }
    }
}

} // verus!
