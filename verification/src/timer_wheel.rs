//! Hierarchical timer wheel.
//!
//! Each level has a fixed number of slots. A timer is placed in the lowest
//! level that can represent its delay. When a lower level wraps, timers
//! cascade down from the next level, getting re-sorted into finer slots.
//!
//! ```text
//! Level 0: 256 slots, 1 ms/slot   (256 ms range)
//! Level 1:  64 slots, 256 ms/slot (~16 s range)
//! Level 2:  64 slots, ~16 s/slot  (~17 min range)
//! Level 3:  64 slots, ~17 min/slot (~18 hr range)
//! ```
//!
//! Timers beyond ~18 hours are stored in an overflow list.
//!
//! Time is counted in ticks of one millisecond since the wheel was created;
//! the caller reads the clock and hands the wheel the current tick. A timer
//! carries a payload of the caller's choosing (its callback, typically), which
//! the wheel hands back when the timer expires.
use std::collections::HashMap;
use vstd::prelude::*;
use vstd::std_specs::iter::IteratorSpec;

verus! {

broadcast use vstd::std_specs::hash::group_hash_axioms;

/// Number of wheel levels.
pub const NUM_LEVELS: usize = 4;

/// Total number of slots over all levels (256 + 64 + 64 + 64).
pub const NUM_SLOTS: usize = 448;

/// Total addressable ticks: 2^26 = 67,108,864 (~18.6 hours at 1ms/tick).
pub const MAX_RANGE_TICKS: u64 = 67108864;

/// Unique identifier for a scheduled timer.
#[derive(Debug, Clone, Copy, PartialEq, Eq, Hash, Structural)]
pub struct TimerId(pub u64);

/// What a timer does when it expires: fire once, or fire and come back after
/// its interval (in ticks).
pub enum TimerKind<T> {
    Once(T),
    Repeating(T, u64),
}

/// A scheduled timer.
pub struct TimerEntry<T> {
    pub id: TimerId,
    pub deadline_tick: u64,
    pub kind: TimerKind<T>,
}

/// Ticks covered by one slot of a level.
pub open spec fn slot_ticks(l: int) -> int {
    if l == 0 {
        1
    } else if l == 1 {
        256
    } else if l == 2 {
        16384
    } else {
        1048576
    }
}

/// Number of slots of a level.
pub open spec fn level_size(l: int) -> int {
    if l == 0 {
        256
    } else {
        64
    }
}

/// Ticks covered by a whole level.
pub open spec fn level_span(l: int) -> int {
    if l == 0 {
        256
    } else if l == 1 {
        16384
    } else if l == 2 {
        1048576
    } else {
        67108864
    }
}

/// Index of the first slot of a level in the flat slot table.
pub open spec fn level_base(l: int) -> int {
    if l == 0 {
        0
    } else if l == 1 {
        256
    } else if l == 2 {
        320
    } else {
        384
    }
}

/// The lowest level whose span covers `delta` ticks (the top level if none does).
pub open spec fn level_for(delta: int) -> int {
    if delta < 256 {
        0
    } else if delta < 16384 {
        1
    } else if delta < 1048576 {
        2
    } else {
        3
    }
}

/// The slot, within its level, of a deadline.
pub open spec fn slot_of(l: int, d: int) -> int {
    (d / slot_ticks(l)) % level_size(l)
}

/// The index in the flat slot table of a deadline at a level.
pub open spec fn slot_index(l: int, d: int) -> int {
    level_base(l) + slot_of(l, d)
}

/// The tick at which a timer at level `l` with deadline `d` moves to a lower level.
pub open spec fn cascade_tick(l: int, d: int) -> int {
    d - d % slot_ticks(l)
}

/// A timer with deadline `d` sits where the wheel will find it in time, the
/// wheel standing at tick `c`: at level 0, it is due within the level's span;
/// higher up, it moves down at a tick after `c` that the level's slot is
/// visited at before wrapping.
pub open spec fn placed(l: int, d: int, c: int) -> bool {
    if l == 0 {
        c <= d < c + 256
    } else {
        c < cascade_tick(l, d) < c + level_span(l)
    }
}

/// The flat slot index and level that an insertion at tick `c` chooses for a
/// deadline `d`; level 4 stands for the overflow list.
pub open spec fn insert_level(d: int, c: int) -> int {
    let delta = if d >= c { d - c } else { 0 };
    if delta >= MAX_RANGE_TICKS {
        4
    } else {
        level_for(delta)
    }
}

/// Find the lowest wheel level whose span covers `delta` ticks.
pub fn level_for_delta(delta: u64) -> (r: usize)
    ensures
        r == level_for(delta as int),
{
    if delta < 256 {
        0
    } else if delta < 16384 {
        1
    } else if delta < 1048576 {
        2
    } else {
        3
    }
}

/// An insertion at tick `c` of a deadline not before `c` and within range
/// puts it where the wheel will find it in time.
proof fn lemma_insert_placed(d: int, c: int)
    requires
        c <= d < c + MAX_RANGE_TICKS,
    ensures
        0 <= insert_level(d, c) < 4,
        placed(insert_level(d, c), d, c),
{
}

/// The flat index of a slot lies within the range of its level.
proof fn lemma_slot_index_range(l: int, d: int)
    requires
        0 <= l < 4,
        d >= 0,
    ensures
        level_base(l) <= slot_index(l, d) < level_base(l) + level_size(l),
        0 <= slot_index(l, d) < NUM_SLOTS,
{
}

/// A level-0 timer in the slot of the current tick is due now.
proof fn lemma_level0_due(d: int, c: int)
    requires
        placed(0, d, c),
        slot_of(0, d) == slot_of(0, c),
        c >= 0,
    ensures
        d == c,
{
    assert((d - c) % 256 == 0) by (nonlinear_arith)
        requires
            d % 256 == c % 256,
            d >= c,
    {
    }
}

/// A higher-level timer whose cascade tick has come sits in the slot that the
/// wheel visits at that tick.
proof fn lemma_due_slot(l: int, d: int, c: int)
    requires
        1 <= l < 4,
        d >= 0,
        cascade_tick(l, d) == c,
    ensures
        slot_of(l, d) == slot_of(l, c),
        c <= d < c + slot_ticks(l),
{
    let u = slot_ticks(l);
    assert(d / u == c / u) by (nonlinear_arith)
        requires
            c == d - d % u,
            u > 0,
            d >= 0,
    {
    }
}

/// At a tick where level `l` wraps, a timer placed at that level in the slot
/// visited now cannot be waiting for a later visit.
proof fn lemma_visited_slot_is_due(l: int, d: int, c: int)
    requires
        1 <= l < 4,
        d >= 0,
        c >= 0,
        c % slot_ticks(l) == 0,
        slot_of(l, d) == slot_of(l, c),
    ensures
        !placed(l, d, c),
{
    let u = slot_ticks(l);
    let n = level_size(l);
    let t = cascade_tick(l, d);
    assert(t % u == 0 && t / u == d / u) by (nonlinear_arith)
        requires
            t == d - d % u,
            u > 0,
            d >= 0,
    {
    }
    assert(!(c < t < c + u * n)) by (nonlinear_arith)
        requires
            t % u == 0,
            c % u == 0,
            (t / u) % n == (c / u) % n,
            u > 0,
            n > 0,
            c >= 0,
            t >= 0,
    {
    }
}


/// The tick at which a timer moves down from level `h` is a multiple of the
/// slot width of every level `l` up to `h`.
proof fn lemma_cascade_tick_aligned(h: int, l: int, d: int)
    requires
        1 <= l <= h < 4,
        d >= 0,
    ensures
        cascade_tick(h, d) % slot_ticks(l) == 0,
{
    let uh = slot_ticks(h);
    let ul = slot_ticks(l);
    let m = uh / ul;
    let q = d / uh;
    assert(uh == ul * m);
    vstd::arithmetic::div_mod::lemma_fundamental_div_mod(d, uh);
    assert(cascade_tick(h, d) == uh * q);
    vstd::arithmetic::mul::lemma_mul_is_associative(ul, m, q);
    vstd::arithmetic::mul::lemma_mul_is_commutative(ul, m * q);
    vstd::arithmetic::div_mod::lemma_mod_multiples_basic(m * q, ul);
}

/// Whether a timer expires when the wheel moves from tick `now` to tick
/// `target`: every timer does after a jump longer than the wheel's range,
/// otherwise the timers due before `target`.
pub open spec fn expires_at<T>(e: TimerEntry<T>, now: int, target: int) -> bool {
    target > now + MAX_RANGE_TICKS || e.deadline_tick < target
}

/// The live timers after the repeating timers among `fired` are re-armed in
/// order, each one interval after `now_tick`; one-shots are not re-armed.
pub open spec fn rearmed_entries<T>(m: Map<u64, TimerEntry<T>>, fired: Seq<TimerEntry<T>>, now_tick: u64) -> Map<
    u64,
    TimerEntry<T>,
>
    decreases fired.len(),
{
    if fired.len() == 0 {
        m
    } else {
        let rest = rearmed_entries(m, fired.drop_last(), now_tick);
        let e = fired.last();
        match e.kind {
            TimerKind::Repeating(p, interval) => rest.insert(
                e.id.0,
                TimerEntry { id: e.id, deadline_tick: (now_tick + interval) as u64, kind: TimerKind::Repeating(p, interval) },
            ),
            TimerKind::Once(_) => rest,
        }
    }
}

/// The raw ids of the repeating timers among `fired`.
pub open spec fn repeating_ids<T>(fired: Seq<TimerEntry<T>>) -> Set<u64>
    decreases fired.len(),
{
    if fired.len() == 0 {
        Set::empty()
    } else {
        let rest = repeating_ids(fired.drop_last());
        if fired.last().kind is Repeating {
            rest.insert(fired.last().id.0)
        } else {
            rest
        }
    }
}

/// A repeating id of a sequence is the id of one of its entries.
proof fn lemma_repeating_ids_in<T>(fired: Seq<TimerEntry<T>>, x: u64)
    requires
        repeating_ids(fired).contains(x),
    ensures
        entry_ids(fired).contains(x),
    decreases fired.len(),
{
    if fired.len() > 0 {
        if repeating_ids(fired.drop_last()).contains(x) {
            lemma_repeating_ids_in(fired.drop_last(), x);
            let j = choose|j: int| 0 <= j < entry_ids(fired.drop_last()).len() && entry_ids(fired.drop_last())[j] == x;
            assert(entry_ids(fired)[j] == x);
        } else {
            assert(entry_ids(fired)[fired.len() - 1] == x);
        }
    }
}

/// How many of a sequence of timers are one-shots.
pub open spec fn count_once<T>(s: Seq<TimerEntry<T>>) -> nat
    decreases s.len(),
{
    if s.len() == 0 {
        0
    } else {
        count_once(s.drop_last()) + if s.last().kind is Once { 1nat } else { 0nat }
    }
}

/// How many of a sequence of timers are repeating timers.
pub open spec fn count_repeating<T>(s: Seq<TimerEntry<T>>) -> nat
    decreases s.len(),
{
    if s.len() == 0 {
        0
    } else {
        count_repeating(s.drop_last()) + if s.last().kind is Repeating { 1nat } else { 0nat }
    }
}

/// Every timer is a one-shot or a repeating timer.
proof fn lemma_count_kinds<T>(s: Seq<TimerEntry<T>>)
    ensures
        count_once(s) + count_repeating(s) == s.len(),
    decreases s.len(),
{
    if s.len() > 0 {
        lemma_count_kinds(s.drop_last());
    }
}

/// Handing back the timers that left a table accounts for them all: what
/// stays and what was handed back add up to what there was.
proof fn lemma_handed_back_len<T>(
    expired: Seq<TimerEntry<T>>,
    base: Map<u64, TimerEntry<T>>,
    cur: Map<u64, TimerEntry<T>>,
)
    requires
        handed_back(expired, base, cur),
        base.dom().finite(),
    ensures
        cur.len() + expired.len() == base.len(),
{
    let ids = entry_ids(expired);
    ids.unique_seq_to_set();
    let s = ids.to_set();
    assert(base.dom() =~= cur.dom() + s) by {
        assert forall|x: u64| s.contains(x) implies base.contains_key(x) by {
            let i = choose|i: int| 0 <= i < ids.len() && ids[i] == x;
            assert(expired[i].id.0 == x);
        }
    }
    assert(cur.dom().disjoint(s)) by {
        assert forall|x: u64| s.contains(x) implies !cur.contains_key(x) by {
            let i = choose|i: int| 0 <= i < ids.len() && ids[i] == x;
            assert(expired[i].id.0 == x);
        }
    }
    assert(cur.dom().finite()) by {
        assert(cur.dom().subset_of(base.dom()));
        vstd::set_lib::lemma_set_subset_finite(base.dom(), cur.dom());
    }
    vstd::set_lib::lemma_set_disjoint_lens(cur.dom(), s);
}

/// Hierarchical timer wheel for O(1) timer scheduling and cancellation.
///
/// Timers are placed into one of four wheel levels depending on how far in
/// the future they fire. As time advances, higher-level timers cascade down
/// into finer-grained levels until they land in level 0 and fire.
pub struct TimerWheel<T> {
    /// The slots of all levels, level after level.
    slots: Vec<Vec<u64>>,
    /// Timers whose deadline exceeds the wheel's addressable range.
    overflow: Vec<u64>,
    current_tick: u64,
    /// All live timers keyed by raw id. Cancelled timers are removed from here;
    /// stale ids left in wheel slots are skipped on fire.
    timers: HashMap<u64, TimerEntry<T>>,
    next_id: u64,
    /// The level (4: the overflow list) that each live timer was last placed at.
    home: Ghost<Map<u64, int>>,
    /// Ids of expired repeating or one-shot timers handed out and not yet re-armed.
    handed_out: Ghost<Set<u64>>,
    /// How many timers were scheduled, cancelled, fired as one-shots, fired as
    /// repeating timers, and re-armed, since the wheel was created.
    tally: Ghost<(nat, nat, nat, nat, nat)>,
}

/// The raw ids of a sequence of timer entries.
pub open spec fn entry_ids<T>(v: Seq<TimerEntry<T>>) -> Seq<u64> {
    v.map_values(|e: TimerEntry<T>| e.id.0)
}

/// `expired` holds exactly the entries of `base` that are missing from `cur`,
/// once each, and `cur` holds the rest of `base` unchanged.
pub open spec fn handed_back<T>(
    expired: Seq<TimerEntry<T>>,
    base: Map<u64, TimerEntry<T>>,
    cur: Map<u64, TimerEntry<T>>,
) -> bool {
    &&& forall|x: u64| #[trigger] cur.contains_key(x) ==> base.contains_key(x) && cur[x] == base[x]
    &&& entry_ids(expired).no_duplicates()
    &&& forall|i: int|
        0 <= i < expired.len() ==> {
            let x = (#[trigger] expired[i]).id.0;
            &&& base.contains_key(x)
            &&& !cur.contains_key(x)
            &&& expired[i] == base[x]
        }
    &&& forall|x: u64|
        base.contains_key(x) && !cur.contains_key(x) ==> #[trigger] entry_ids(expired).contains(x)
}

impl<T> TimerWheel<T> {
    /// The live timers, by raw id.
    pub closed spec fn entries(&self) -> Map<u64, TimerEntry<T>> {
        self.timers@
    }

    /// The tick the wheel stands at.
    pub closed spec fn now(&self) -> int {
        self.current_tick as int
    }

    /// The raw id the next scheduled timer gets.
    pub closed spec fn fresh_id(&self) -> u64 {
        self.next_id
    }

    /// Ids of expired timers that `advance_to` handed out and that were not re-armed since.
    pub closed spec fn handed_out_ids(&self) -> Set<u64> {
        self.handed_out@
    }

    spec fn deadline(&self, x: u64) -> int {
        self.timers@[x].deadline_tick as int
    }

    spec fn live(&self, x: u64) -> bool {
        self.timers@.contains_key(x)
    }

    spec fn ids_ok(&self) -> bool {
        &&& forall|x: u64| #[trigger]
            self.timers@.contains_key(x) ==> {
                &&& x < self.next_id
                &&& self.timers@[x].id == TimerId(x)
                &&& !self.handed_out@.contains(x)
                &&& self.home@.contains_key(x)
                &&& 0 <= self.home@[x] <= 4
            }
        &&& forall|x: u64| #[trigger]
            self.handed_out@.contains(x) ==> x < self.next_id && !self.timers@.contains_key(x)
    }

    spec fn slot_entry_ok(&self, k: int, x: u64) -> bool {
        &&& x < self.next_id
        &&& !self.handed_out@.contains(x)
        &&& self.live(x) ==> self.home@[x] < 4 && k == slot_index(self.home@[x], self.deadline(x))
    }

    spec fn slots_ok(&self) -> bool {
        &&& self.slots@.len() == NUM_SLOTS
        &&& forall|k: int, i: int|
            0 <= k < NUM_SLOTS && 0 <= i < self.slots@[k]@.len() ==> self.slot_entry_ok(
                k,
                #[trigger] self.slots@[k]@[i],
            )
    }

    spec fn overflow_ok(&self) -> bool {
        forall|i: int|
            0 <= i < self.overflow@.len() ==> {
                let x = #[trigger] self.overflow@[i];
                &&& x < self.next_id
                &&& !self.handed_out@.contains(x)
                &&& self.live(x) ==> self.home@[x] == 4
            }
    }

    /// Every live timer sits at its home: a slot where it is placed (or, at
    /// levels from `due_from` up, due to cascade at the current tick), or the
    /// overflow list with a deadline not before `floor`.
    spec fn homes_ok(&self, due_from: int, floor: int) -> bool {
        forall|x: u64| #[trigger]
            self.timers@.contains_key(x) ==> {
                let h = self.home@[x];
                let d = self.deadline(x);
                if h < 4 {
                    &&& placed(h, d, self.now()) || (h >= due_from && cascade_tick(h, d) == self.now())
                    &&& self.slots@[slot_index(h, d)]@.contains(x)
                } else {
                    &&& d >= floor
                    &&& self.overflow@.contains(x)
                }
            }
    }

    /// The wheel's invariant.
    pub closed spec fn wf(&self) -> bool {
        &&& self.structure_ok()
        &&& self.tally_balances(0)
    }

    spec fn structure_ok(&self) -> bool {
        &&& self.ids_ok()
        &&& self.slots_ok()
        &&& self.overflow_ok()
        &&& self.homes_ok(4, self.now() + MAX_RANGE_TICKS)
    }

    /// The live timers, with `missing` more, are those scheduled or re-armed
    /// and not cancelled or fired.
    spec fn tally_balances(&self, missing: int) -> bool {
        self.timers@.len() + missing + self.tally@.1 + self.tally@.2 + self.tally@.3 == self.tally@.0 + self.tally@.4
    }

    /// How many timers were scheduled since the wheel was created.
    pub closed spec fn scheduled_count(&self) -> nat {
        self.tally@.0
    }

    /// How many pending timers were cancelled.
    pub closed spec fn cancelled_count(&self) -> nat {
        self.tally@.1
    }

    /// How many one-shot timers fired (were handed back by `advance_to`).
    pub closed spec fn fired_once_count(&self) -> nat {
        self.tally@.2
    }

    /// How many times a repeating timer fired.
    pub closed spec fn fired_repeating_count(&self) -> nat {
        self.tally@.3
    }

    /// How many times a fired timer was re-armed.
    pub closed spec fn rearmed_count(&self) -> nat {
        self.tally@.4
    }

    /// No slot or overflow position holds `x` except at the home that level `l` gives it.
    spec fn only_at(&self, x: u64, l: int, d: int) -> bool {
        &&& forall|k: int, i: int|
            0 <= k < NUM_SLOTS && 0 <= i < self.slots@[k]@.len() && #[trigger] self.slots@[k]@[i]
                == x ==> l < 4 && k == slot_index(l, d)
        &&& forall|i: int| 0 <= i < self.overflow@.len() && #[trigger] self.overflow@[i] == x ==> l == 4
    }

    pub fn new() -> (w: Self)
        ensures
            w.wf(),
            w.entries() == Map::<u64, TimerEntry<T>>::empty(),
            w.now() == 0,
            w.fresh_id() == 1,
            w.handed_out_ids() == Set::<u64>::empty(),
            w.scheduled_count() == 0,
            w.cancelled_count() == 0,
            w.fired_once_count() == 0,
            w.fired_repeating_count() == 0,
            w.rearmed_count() == 0,
    {
        let mut slots: Vec<Vec<u64>> = Vec::new();
        let mut k: usize = 0;
        while k < NUM_SLOTS
            invariant
                k <= NUM_SLOTS,
                slots@.len() == k,
                forall|j: int| 0 <= j < k ==> (#[trigger] slots@[j])@.len() == 0,
            decreases NUM_SLOTS - k,
        {
            slots.push(Vec::new());
            k = k + 1;
        }
        TimerWheel {
            slots,
            overflow: Vec::new(),
            current_tick: 0,
            timers: HashMap::new(),
            next_id: 1,
            home: Ghost(Map::empty()),
            handed_out: Ghost(Set::empty()),
            tally: Ghost((0, 0, 0, 0, 0)),
        }
    }

    /// Number of currently scheduled timers.
    pub fn pending_count(&self) -> (r: usize)
        ensures
            r == self.entries().len(),
    {
        self.timers.len()
    }

    /// The raw id the next scheduled timer gets.
    pub fn next_timer_id(&self) -> (r: u64)
        ensures
            r == self.fresh_id(),
    {
        self.next_id
    }

    /// The tick the wheel stands at.
    pub fn current_tick(&self) -> (r: u64)
        ensures
            r == self.now(),
    {
        self.current_tick
    }

    /// Place a timer id into the slot (or the overflow list) that its deadline
    /// calls for, seen from the current tick.
    fn insert_into_wheel(&mut self, id: u64, deadline_tick: u64)
        requires
            old(self).slots_ok(),
            old(self).overflow_ok(),
            id < old(self).next_id,
            !old(self).handed_out@.contains(id),
            old(self).live(id),
            old(self).deadline(id) == deadline_tick,
            old(self).only_at(id, insert_level(deadline_tick as int, old(self).now()), deadline_tick as int),
        ensures
            final(self).tally == old(self).tally,
            final(self).slots_ok(),
            final(self).overflow_ok(),
            final(self).timers == old(self).timers,
            final(self).current_tick == old(self).current_tick,
            final(self).next_id == old(self).next_id,
            final(self).handed_out == old(self).handed_out,
            final(self).home@ == old(self).home@.insert(id, insert_level(deadline_tick as int, final(self).now())),
            insert_level(deadline_tick as int, final(self).now()) < 4 ==> final(self).slots@[slot_index(
                insert_level(deadline_tick as int, final(self).now()),
                deadline_tick as int,
            )]@.contains(id),
            insert_level(deadline_tick as int, final(self).now()) == 4 ==> final(self).overflow@.contains(id),
            forall|k: int, y: u64|
                0 <= k < NUM_SLOTS && #[trigger] old(self).slots@[k]@.contains(y) ==> final(self).slots@[k]@.contains(y),
            forall|y: u64| #[trigger] old(self).overflow@.contains(y) ==> final(self).overflow@.contains(y),
            insert_level(deadline_tick as int, final(self).now()) < 4 ==> final(self).overflow == old(self).overflow,
            insert_level(deadline_tick as int, final(self).now()) < 4 ==> final(self).slots@[slot_index(
                insert_level(deadline_tick as int, final(self).now()),
                deadline_tick as int,
            )]@ == old(self).slots@[slot_index(
                insert_level(deadline_tick as int, final(self).now()),
                deadline_tick as int,
            )]@.push(id),
            insert_level(deadline_tick as int, final(self).now()) == 4 ==> final(self).overflow@ == old(self).overflow@.push(id),
            insert_level(deadline_tick as int, final(self).now()) == 4 ==> final(self).slots == old(self).slots,
            final(self).slots@.len() == old(self).slots@.len(),
            forall|k: int|
                0 <= k < NUM_SLOTS && k != slot_index(
                    insert_level(deadline_tick as int, final(self).now()),
                    deadline_tick as int,
                ) ==> #[trigger] final(self).slots@[k] == old(self).slots@[k],
    {
        let ghost l = insert_level(deadline_tick as int, self.now());
        let delta = deadline_tick.saturating_sub(self.current_tick);
        self.home = Ghost(self.home@.insert(id, l));
        if delta >= MAX_RANGE_TICKS {
            self.overflow.push(id);
            assert(self.slots_ok()) by {
                assert forall|k: int, i: int|
                    0 <= k < NUM_SLOTS && 0 <= i < self.slots@[k]@.len() implies self.slot_entry_ok(
                    k,
                    #[trigger] self.slots@[k]@[i],
                ) by {
                    assert(old(self).slot_entry_ok(k, self.slots@[k]@[i]));
                }
            }
            assert(self.overflow@[self.overflow@.len() - 1] == id);
            assert forall|y: u64| #[trigger] old(self).overflow@.contains(y) implies self.overflow@.contains(y) by {
                let i = choose|i: int| 0 <= i < old(self).overflow@.len() && old(self).overflow@[i] == y;
                assert(self.overflow@[i] == y);
            }
            return;
        }
        let level = level_for_delta(delta);
        let slot: usize = if level == 0 {
            (deadline_tick % 256) as usize
        } else if level == 1 {
            (256 + (deadline_tick / 256) % 64) as usize
        } else if level == 2 {
            (320 + (deadline_tick / 16384) % 64) as usize
        } else {
            (384 + (deadline_tick / 1048576) % 64) as usize
        };
        assert(slot == slot_index(l, deadline_tick as int));
        self.slots[slot].push(id);
        assert(self.slots@[slot as int]@[self.slots@[slot as int]@.len() - 1] == id);
        assert(self.slots_ok()) by {
            assert forall|k: int, i: int|
                0 <= k < NUM_SLOTS && 0 <= i < self.slots@[k]@.len() implies self.slot_entry_ok(
                k,
                #[trigger] self.slots@[k]@[i],
            ) by {
                if k != slot || i < old(self).slots@[k]@.len() {
                    assert(old(self).slot_entry_ok(k, self.slots@[k]@[i]));
                }
            }
        }
        assert(forall|k: int, y: u64|
            0 <= k < NUM_SLOTS && #[trigger] old(self).slots@[k]@.contains(y) ==> self.slots@[k]@.contains(y)) by {
            assert forall|k: int, y: u64|
                0 <= k < NUM_SLOTS && #[trigger] old(self).slots@[k]@.contains(y) implies self.slots@[k]@.contains(y) by {
                let i = choose|i: int| 0 <= i < old(self).slots@[k]@.len() && old(self).slots@[k]@[i] == y;
                assert(self.slots@[k]@[i] == y);
            }
        }
    }

    /// Make `id` a live timer with this deadline and kind, placed where its
    /// deadline calls for. The id is below the next fresh id, not live, and held
    /// by no slot or overflow position; it stops counting as handed out.
    fn add_timer(&mut self, id: u64, deadline_tick: u64, kind: TimerKind<T>)
        requires
            old(self).structure_ok(),
            old(self).tally_balances(1),
            id < old(self).next_id,
            !old(self).live(id),
            old(self).nowhere(id),
            old(self).now() <= deadline_tick,
        ensures
            final(self).wf(),
            final(self).timers@ == old(self).timers@.insert(id, TimerEntry { id: TimerId(id), deadline_tick, kind }),
            final(self).handed_out@ == old(self).handed_out@.remove(id),
            final(self).current_tick == old(self).current_tick,
            final(self).next_id == old(self).next_id,
            final(self).tally == old(self).tally,
    {
        self.timers.insert(id, TimerEntry { id: TimerId(id), deadline_tick, kind });
        self.handed_out = Ghost(self.handed_out@.remove(id));
        let ghost mid = *self;
        assert(self.slots_ok()) by {
            assert forall|k: int, i: int|
                0 <= k < NUM_SLOTS && 0 <= i < self.slots@[k]@.len() implies self.slot_entry_ok(
                k,
                #[trigger] self.slots@[k]@[i],
            ) by {
                assert(old(self).slot_entry_ok(k, self.slots@[k]@[i]));
            }
        }
        assert(self.overflow_ok()) by {
            assert forall|i: int| 0 <= i < self.overflow@.len() implies {
                let x = #[trigger] self.overflow@[i];
                &&& x < self.next_id
                &&& !self.handed_out@.contains(x)
                &&& self.live(x) ==> self.home@[x] == 4
            } by {
                assert(self.overflow@[i] != id);
            }
        }
        assert(self.only_at(id, insert_level(deadline_tick as int, self.now()), deadline_tick as int)) by {
            assert forall|k: int, i: int|
                0 <= k < NUM_SLOTS && 0 <= i < self.slots@[k]@.len() && #[trigger] self.slots@[k]@[i]
                    == id implies false by {
                assert(old(self).slots@[k]@[i] != id);
            }
        }
        self.insert_into_wheel(id, deadline_tick);
        proof {
            let l = insert_level(deadline_tick as int, self.now());
            if l < 4 {
                lemma_insert_placed(deadline_tick as int, self.now());
            }
            assert forall|x: u64| #[trigger] self.timers@.contains_key(x) implies {
                &&& x < self.next_id
                &&& self.timers@[x].id == TimerId(x)
                &&& !self.handed_out@.contains(x)
                &&& self.home@.contains_key(x)
                &&& 0 <= self.home@[x] <= 4
            } by {
                if x != id {
                    assert(old(self).timers@.contains_key(x));
                }
            }
            assert forall|x: u64| #[trigger] self.handed_out@.contains(x) implies x < self.next_id
                && !self.timers@.contains_key(x) by {
                assert(old(self).handed_out@.contains(x));
            }
            assert(self.homes_ok(4, self.now() + MAX_RANGE_TICKS)) by {
                assert forall|x: u64| #[trigger] self.timers@.contains_key(x) implies {
                    let h = self.home@[x];
                    let d = self.deadline(x);
                    if h < 4 {
                        &&& placed(h, d, self.now()) || (h >= 4 && cascade_tick(h, d) == self.now())
                        &&& self.slots@[slot_index(h, d)]@.contains(x)
                    } else {
                        &&& d >= self.now() + MAX_RANGE_TICKS
                        &&& self.overflow@.contains(x)
                    }
                } by {
                    if x != id {
                        assert(old(self).timers@.contains_key(x));
                        let h = self.home@[x];
                        let d = self.deadline(x);
                        if h < 4 {
                            lemma_slot_index_range(h, d);
                            assert(mid.slots@[slot_index(h, d)]@.contains(x));
                        } else {
                            assert(mid.overflow@.contains(x));
                        }
                    }
                }
            }
        }
    }

    /// Register a new timer due `delay` ticks after `now_tick`, under the next fresh id.
    fn schedule(&mut self, now_tick: u64, delay: u64, kind: TimerKind<T>) -> (r: TimerId)
        requires
            old(self).wf(),
            old(self).now() <= now_tick,
            now_tick + delay <= u64::MAX,
            old(self).fresh_id() < u64::MAX,
        ensures
            final(self).wf(),
            r == TimerId(old(self).fresh_id()),
            !old(self).entries().contains_key(r.0),
            final(self).entries() == old(self).entries().insert(
                r.0,
                TimerEntry { id: r, deadline_tick: (now_tick + delay) as u64, kind },
            ),
            final(self).now() == old(self).now(),
            final(self).fresh_id() == old(self).fresh_id() + 1,
            final(self).handed_out_ids() == old(self).handed_out_ids(),
            final(self).scheduled_count() == old(self).scheduled_count() + 1,
            final(self).cancelled_count() == old(self).cancelled_count(),
            final(self).fired_once_count() == old(self).fired_once_count(),
            final(self).fired_repeating_count() == old(self).fired_repeating_count(),
            final(self).rearmed_count() == old(self).rearmed_count(),
    {
        let id = self.next_id;
        self.next_id = id + 1;
        self.tally = Ghost((self.tally@.0 + 1, self.tally@.1, self.tally@.2, self.tally@.3, self.tally@.4));
        proof {
            assert forall|k: int, i: int|
                0 <= k < NUM_SLOTS && 0 <= i < self.slots@[k]@.len() implies self.slot_entry_ok(
                k,
                #[trigger] self.slots@[k]@[i],
            ) by {
                assert(old(self).slot_entry_ok(k, self.slots@[k]@[i]));
            }
            assert forall|k: int, i: int|
                0 <= k < NUM_SLOTS && 0 <= i < self.slots@[k]@.len() implies #[trigger] self.slots@[k]@[i] != id by {
                assert(old(self).slot_entry_ok(k, self.slots@[k]@[i]));
            }
            assert(!old(self).handed_out@.contains(id));
            assert(old(self).handed_out@.remove(id) =~= old(self).handed_out@);
        }
        self.add_timer(id, now_tick + delay, kind);
        TimerId(id)
    }

    /// Schedule a one-shot timer that fires once, `delay` ticks after `now_tick`.
    pub fn schedule_once(&mut self, now_tick: u64, delay: u64, payload: T) -> (r: TimerId)
        requires
            old(self).wf(),
            old(self).now() <= now_tick,
            now_tick + delay <= u64::MAX,
            old(self).fresh_id() < u64::MAX,
        ensures
            final(self).wf(),
            r == TimerId(old(self).fresh_id()),
            !old(self).entries().contains_key(r.0),
            final(self).entries().len() == old(self).entries().len() + 1,
            final(self).entries() == old(self).entries().insert(
                r.0,
                TimerEntry { id: r, deadline_tick: (now_tick + delay) as u64, kind: TimerKind::Once(payload) },
            ),
            final(self).now() == old(self).now(),
            final(self).fresh_id() == old(self).fresh_id() + 1,
            final(self).handed_out_ids() == old(self).handed_out_ids(),
            final(self).scheduled_count() == old(self).scheduled_count() + 1,
            final(self).cancelled_count() == old(self).cancelled_count(),
            final(self).fired_once_count() == old(self).fired_once_count(),
            final(self).fired_repeating_count() == old(self).fired_repeating_count(),
            final(self).rearmed_count() == old(self).rearmed_count(),
    {
        self.schedule(now_tick, delay, TimerKind::Once(payload))
    }

    /// Schedule a repeating timer that fires every `interval` ticks.
    /// The first firing happens one `interval` after `now_tick`.
    pub fn schedule_repeating(&mut self, now_tick: u64, interval: u64, payload: T) -> (r: TimerId)
        requires
            old(self).wf(),
            old(self).now() <= now_tick,
            now_tick + interval <= u64::MAX,
            old(self).fresh_id() < u64::MAX,
        ensures
            final(self).wf(),
            r == TimerId(old(self).fresh_id()),
            !old(self).entries().contains_key(r.0),
            final(self).entries().len() == old(self).entries().len() + 1,
            final(self).entries() == old(self).entries().insert(
                r.0,
                TimerEntry {
                    id: r,
                    deadline_tick: (now_tick + interval) as u64,
                    kind: TimerKind::Repeating(payload, interval),
                },
            ),
            final(self).now() == old(self).now(),
            final(self).fresh_id() == old(self).fresh_id() + 1,
            final(self).handed_out_ids() == old(self).handed_out_ids(),
            final(self).scheduled_count() == old(self).scheduled_count() + 1,
            final(self).cancelled_count() == old(self).cancelled_count(),
            final(self).fired_once_count() == old(self).fired_once_count(),
            final(self).fired_repeating_count() == old(self).fired_repeating_count(),
            final(self).rearmed_count() == old(self).rearmed_count(),
    {
        self.schedule(now_tick, interval, TimerKind::Repeating(payload, interval))
    }

    /// Cancel a pending timer. Returns true if the timer existed and was removed.
    pub fn cancel(&mut self, timer_id: TimerId) -> (r: bool)
        requires
            old(self).wf(),
        ensures
            final(self).wf(),
            r == old(self).entries().contains_key(timer_id.0),
            final(self).entries() == old(self).entries().remove(timer_id.0),
            final(self).entries().len() == if r { old(self).entries().len() - 1 } else { old(self).entries().len() as int },
            final(self).now() == old(self).now(),
            final(self).fresh_id() == old(self).fresh_id(),
            final(self).handed_out_ids() == old(self).handed_out_ids(),
            final(self).cancelled_count() == old(self).cancelled_count() + if r { 1nat } else { 0nat },
            final(self).scheduled_count() == old(self).scheduled_count(),
            final(self).fired_once_count() == old(self).fired_once_count(),
            final(self).fired_repeating_count() == old(self).fired_repeating_count(),
            final(self).rearmed_count() == old(self).rearmed_count(),
    {
        let removed = self.timers.remove(&timer_id.0);
        if removed.is_some() {
            self.tally = Ghost((self.tally@.0, self.tally@.1 + 1, self.tally@.2, self.tally@.3, self.tally@.4));
        }
        proof {
            assert forall|k: int, i: int|
                0 <= k < NUM_SLOTS && 0 <= i < self.slots@[k]@.len() implies self.slot_entry_ok(
                k,
                #[trigger] self.slots@[k]@[i],
            ) by {
                assert(old(self).slot_entry_ok(k, self.slots@[k]@[i]));
            }
            assert forall|x: u64| #[trigger] self.timers@.contains_key(x) implies old(self).timers@.contains_key(x)
                && self.timers@[x] == old(self).timers@[x] by {
            }
        }
        removed.is_some()
    }

    /// No slot and no overflow position holds `x`.
    spec fn nowhere(&self, x: u64) -> bool {
        &&& forall|k: int, i: int|
            0 <= k < NUM_SLOTS && 0 <= i < self.slots@[k]@.len() ==> #[trigger] self.slots@[k]@[i] != x
        &&& forall|i: int| 0 <= i < self.overflow@.len() ==> #[trigger] self.overflow@[i] != x
    }

    /// Empty slot `k`, returning the ids it held.
    fn take_slot(&mut self, k: usize) -> (ids: Vec<u64>)
        requires
            k < old(self).slots@.len(),
        ensures
            final(self).tally == old(self).tally,
            ids@ == old(self).slots@[k as int]@,
            final(self).slots@.len() == old(self).slots@.len(),
            final(self).slots@[k as int]@.len() == 0,
            forall|j: int| 0 <= j < old(self).slots@.len() && j != k ==> #[trigger] final(self).slots@[j] == old(self).slots@[j],
            final(self).overflow == old(self).overflow,
            final(self).timers == old(self).timers,
            final(self).current_tick == old(self).current_tick,
            final(self).next_id == old(self).next_id,
            final(self).home == old(self).home,
            final(self).handed_out == old(self).handed_out,
    {
        let mut ids: Vec<u64> = Vec::new();
        std::mem::swap(&mut ids, &mut self.slots[k]);
        ids
    }

    /// Remove the live timers among `ids` and hand their entries out in `expired`.
    fn fire_ids(&mut self, ids: &Vec<u64>, expired: &mut Vec<TimerEntry<T>>, Ghost(base): Ghost<Map<u64, TimerEntry<T>>>)
        requires
            old(self).ids_ok(),
            old(self).slots_ok(),
            old(self).overflow_ok(),
            handed_back(old(expired)@, base, old(self).timers@),
            forall|i: int| 0 <= i < ids@.len() && old(self).live(#[trigger] ids@[i]) ==> old(self).nowhere(ids@[i]),
        ensures
            final(self).tally == old(self).tally,
            final(self).ids_ok(),
            final(self).slots_ok(),
            final(self).overflow_ok(),
            handed_back(final(expired)@, base, final(self).timers@),
            final(self).timers@ == old(self).timers@.remove_keys(ids@.to_set()),
            final(self).handed_out@ == old(self).handed_out@ + ids@.to_set().intersect(old(self).timers@.dom()),
            final(self).slots == old(self).slots,
            final(self).overflow == old(self).overflow,
            final(self).current_tick == old(self).current_tick,
            final(self).next_id == old(self).next_id,
            final(self).home == old(self).home,
            old(expired)@.len() <= final(expired)@.len(),
            final(expired)@.subrange(0, old(expired)@.len() as int) == old(expired)@,
            forall|j: int| old(expired)@.len() <= j < final(expired)@.len() ==> {
                let x = (#[trigger] final(expired)@[j]).id.0;
                &&& ids@.contains(x)
                &&& old(self).timers@.contains_key(x)
                &&& final(expired)@[j] == old(self).timers@[x]
            },
    {
        let mut i: usize = 0;
        assert(ids@.subrange(0, 0).to_set() =~= Set::<u64>::empty());
        assert(old(self).handed_out@ + Set::<u64>::empty().intersect(old(self).timers@.dom()) =~= old(self).handed_out@);
        assert(old(self).timers@.remove_keys(Set::<u64>::empty()) =~= old(self).timers@);
        while i < ids.len()
            invariant
                self.tally == old(self).tally,
                i <= ids@.len(),
                self.slots == old(self).slots,
                self.overflow == old(self).overflow,
                self.current_tick == old(self).current_tick,
                self.next_id == old(self).next_id,
                self.home == old(self).home,
                self.ids_ok(),
                self.slots_ok(),
                self.overflow_ok(),
                handed_back(expired@, base, self.timers@),
                self.timers@ == old(self).timers@.remove_keys(ids@.subrange(0, i as int).to_set()),
                self.handed_out@ == old(self).handed_out@ + ids@.subrange(0, i as int).to_set().intersect(
                    old(self).timers@.dom(),
                ),
                forall|j: int| 0 <= j < ids@.len() && old(self).live(#[trigger] ids@[j]) ==> old(self).nowhere(ids@[j]),
                old(expired)@.len() <= expired@.len(),
                expired@.subrange(0, old(expired)@.len() as int) == old(expired)@,
                forall|j: int| old(expired)@.len() <= j < expired@.len() ==> {
                    let x = (#[trigger] expired@[j]).id.0;
                    &&& ids@.contains(x)
                    &&& old(self).timers@.contains_key(x)
                    &&& expired@[j] == old(self).timers@[x]
                },
            decreases ids@.len() - i,
        {
            let id = ids[i];
            let ghost prev = *self;
            let ghost prev_expired = expired@;
            let removed = self.timers.remove(&id);
            match removed {
                Some(entry) => {
                    self.handed_out = Ghost(self.handed_out@.insert(id));
                    expired.push(entry);
                    proof {
                        assert(old(self).live(id));
                        assert(old(self).nowhere(id));
                        assert(entry_ids(expired@) =~= entry_ids(prev_expired).push(id));
                        assert(!entry_ids(prev_expired).contains(id)) by {
                            if entry_ids(prev_expired).contains(id) {
                                let j = choose|j: int| 0 <= j < entry_ids(prev_expired).len() && entry_ids(prev_expired)[j] == id;
                                assert(prev_expired[j].id.0 == id);
                            }
                        }
                        assert forall|x: u64|
                            base.contains_key(x) && !self.timers@.contains_key(x) implies #[trigger] entry_ids(expired@).contains(x) by {
                            if x != id {
                                assert(entry_ids(prev_expired).contains(x));
                                let j = choose|j: int| 0 <= j < entry_ids(prev_expired).len() && entry_ids(prev_expired)[j] == x;
                                assert(entry_ids(expired@)[j] == x);
                            } else {
                                assert(entry_ids(expired@)[expired@.len() - 1] == x);
                            }
                        }
                        assert forall|k: int, j: int|
                            0 <= k < NUM_SLOTS && 0 <= j < self.slots@[k]@.len() implies self.slot_entry_ok(
                            k,
                            #[trigger] self.slots@[k]@[j],
                        ) by {
                            assert(prev.slot_entry_ok(k, self.slots@[k]@[j]));
                        }
                    }
                },
                None => {},
            }
            proof {
                let s0 = ids@.subrange(0, i as int).to_set();
                let s1 = ids@.subrange(0, i + 1).to_set();
                assert(ids@.subrange(0, i + 1) =~= ids@.subrange(0, i as int).push(id));
                assert(s1 =~= s0.insert(id)) by {
                    ids@.subrange(0, i as int).lemma_push_to_set_commute(id);
                }
                assert(self.timers@ =~= old(self).timers@.remove_keys(s1));
                assert(self.handed_out@ =~= old(self).handed_out@ + s1.intersect(old(self).timers@.dom()));
            }
            i = i + 1;
        }
        assert(ids@.subrange(0, ids@.len() as int) =~= ids@);
    }

    /// Move the timers of the slot that level `level` visits at the current
    /// tick down into lower levels. Called when the levels below wrap around.
    #[verifier::rlimit(50)]
    fn cascade(&mut self, level: usize, Ghost(floor): Ghost<int>)
        requires
            1 <= level < 4,
            old(self).ids_ok(),
            old(self).slots_ok(),
            old(self).overflow_ok(),
            old(self).homes_ok(level as int, floor),
            (old(self).current_tick as int) % slot_ticks(level as int) == 0,
        ensures
            final(self).tally == old(self).tally,
            final(self).ids_ok(),
            final(self).slots_ok(),
            final(self).overflow_ok(),
            final(self).homes_ok(level + 1, floor),
            final(self).timers == old(self).timers,
            final(self).overflow == old(self).overflow,
            final(self).current_tick == old(self).current_tick,
            final(self).next_id == old(self).next_id,
            final(self).handed_out == old(self).handed_out,
    {
        let c = self.current_tick;
        let slot: usize = if level == 1 {
            (256 + (c / 256) % 64) as usize
        } else if level == 2 {
            (320 + (c / 16384) % 64) as usize
        } else {
            (384 + (c / 1048576) % 64) as usize
        };
        let ghost l = level as int;
        assert(slot == slot_index(l, c as int));
        let ids = self.take_slot(slot);
        let ghost taken = *self;
        proof {
            assert forall|x: u64| #[trigger] old(self).live(x) && ids@.contains(x) implies {
                &&& old(self).home@[x] == l
                &&& cascade_tick(l, old(self).deadline(x)) == c
                &&& c <= old(self).deadline(x) < c + slot_ticks(l)
                &&& taken.nowhere(x)
            } by {
                let j = choose|j: int| 0 <= j < ids@.len() && ids@[j] == x;
                assert(old(self).slot_entry_ok(slot as int, old(self).slots@[slot as int]@[j]));
                let h = old(self).home@[x];
                let d = old(self).deadline(x);
                lemma_slot_index_range(h, d);
                lemma_slot_index_range(l, c as int);
                assert(h == l);
                if placed(l, d, c as int) {
                    lemma_visited_slot_is_due(l, d, c as int);
                }
                lemma_due_slot(l, d, c as int);
                assert forall|k: int, i: int|
                    0 <= k < NUM_SLOTS && 0 <= i < taken.slots@[k]@.len() implies #[trigger] taken.slots@[k]@[i] != x by {
                    if taken.slots@[k]@[i] == x {
                        assert(old(self).slot_entry_ok(k, old(self).slots@[k]@[i]));
                    }
                }
                assert forall|i: int| 0 <= i < taken.overflow@.len() implies #[trigger] taken.overflow@[i] != x by {
                }
            }
            assert forall|x: u64| #[trigger] old(self).live(x) && !ids@.contains(x) && old(self).home@[x] == l
                implies placed(l, old(self).deadline(x), c as int) by {
                let d = old(self).deadline(x);
                if cascade_tick(l, d) == c {
                    lemma_due_slot(l, d, c as int);
                    assert(old(self).slots@[slot_index(l, d)]@.contains(x));
                }
            }
            assert forall|k: int, i: int|
                0 <= k < NUM_SLOTS && 0 <= i < taken.slots@[k]@.len() implies taken.slot_entry_ok(
                k,
                #[trigger] taken.slots@[k]@[i],
            ) by {
                assert(old(self).slot_entry_ok(k, old(self).slots@[k]@[i]));
            }
        }
        let mut i: usize = 0;
        while i < ids.len()
            invariant
                self.tally == old(self).tally,
                i <= ids@.len(),
                1 <= l < 4,
                c == self.current_tick,
                self.timers == old(self).timers,
                self.overflow == old(self).overflow,
                self.current_tick == old(self).current_tick,
                self.next_id == old(self).next_id,
                self.handed_out == old(self).handed_out,
                self.ids_ok(),
                self.slots_ok(),
                self.overflow_ok(),
                forall|x: u64| #[trigger] old(self).live(x) && ids@.contains(x) ==> {
                    &&& old(self).home@[x] == l
                    &&& cascade_tick(l, old(self).deadline(x)) == c
                    &&& c <= old(self).deadline(x) < c + slot_ticks(l)
                    &&& self.only_at(x, insert_level(old(self).deadline(x), c as int), old(self).deadline(x))
                    &&& ids@.subrange(0, i as int).contains(x) ==> {
                        &&& self.home@[x] == insert_level(old(self).deadline(x), c as int)
                        &&& self.slots@[slot_index(self.home@[x], old(self).deadline(x))]@.contains(x)
                    }
                    &&& !ids@.subrange(0, i as int).contains(x) ==> self.home@[x] == l
                },
                forall|x: u64| #[trigger] old(self).live(x) && !ids@.contains(x) ==> {
                    &&& self.home@[x] == old(self).home@[x]
                    &&& old(self).home@[x] < 4 ==> self.slots@[slot_index(old(self).home@[x], old(self).deadline(x))]@.contains(x)
                    &&& old(self).home@[x] == 4 ==> self.overflow@.contains(x)
                },
            decreases ids@.len() - i,
        {
            let id = ids[i];
            let ghost before = *self;
            match self.timers.get(&id) {
                Some(entry) => {
                    let deadline = entry.deadline_tick;
                    proof {
                        assert(ids@[i as int] == id);
                        assert(ids@.contains(id));
                        assert(old(self).live(id));
                        assert(deadline == old(self).deadline(id));
                        lemma_insert_placed(deadline as int, c as int);
                    }
                    self.insert_into_wheel(id, deadline);
                    proof {
                        let ll = insert_level(deadline as int, c as int);
                        let k = slot_index(ll, deadline as int);
                        lemma_slot_index_range(ll, deadline as int);
                        assert(self.slots@[k]@.contains(id)) by {
                            assert(self.slots@[k]@[self.slots@[k]@.len() - 1] == id);
                        }
                        assert forall|x: u64| #[trigger] old(self).live(x) && ids@.contains(x) implies {
                            &&& self.only_at(x, insert_level(old(self).deadline(x), c as int), old(self).deadline(x))
                            &&& ids@.subrange(0, i + 1).contains(x) ==> {
                                &&& self.home@[x] == insert_level(old(self).deadline(x), c as int)
                                &&& self.slots@[slot_index(self.home@[x], old(self).deadline(x))]@.contains(x)
                            }
                            &&& !ids@.subrange(0, i + 1).contains(x) ==> self.home@[x] == l
                        } by {
                            let dx = old(self).deadline(x);
                            let lx = insert_level(dx, c as int);
                            assert(before.only_at(x, lx, dx));
                            assert forall|kk: int, j: int|
                                0 <= kk < NUM_SLOTS && 0 <= j < self.slots@[kk]@.len() && #[trigger] self.slots@[kk]@[j]
                                    == x implies lx < 4 && kk == slot_index(lx, dx) by {
                                if kk == k && j == self.slots@[kk]@.len() - 1 {
                                    assert(x == id);
                                } else {
                                    assert(before.slots@[kk]@[j] == x);
                                }
                            }
                            if ids@.subrange(0, i as int).contains(x) {
                                let p0 = ids@.subrange(0, i as int);
                                let j = choose|j: int| 0 <= j < p0.len() && p0[j] == x;
                                assert(ids@.subrange(0, i + 1)[j] == x);
                                lemma_slot_index_range(lx, dx);
                            }
                            if x == id {
                                assert(ids@.subrange(0, i + 1)[i as int] == x);
                            }
                            if ids@.subrange(0, i + 1).contains(x) && x != id {
                                let p1 = ids@.subrange(0, i + 1);
                                let j = choose|j: int| 0 <= j < p1.len() && p1[j] == x;
                                assert(ids@.subrange(0, i as int)[j] == x);
                            }
                            if !ids@.subrange(0, i + 1).contains(x) {
                                assert(x != id) by {
                                    assert(ids@.subrange(0, i + 1)[i as int] == id);
                                }
                                if ids@.subrange(0, i as int).contains(x) {
                                    let p0 = ids@.subrange(0, i as int);
                                let j = choose|j: int| 0 <= j < p0.len() && p0[j] == x;
                                    assert(ids@.subrange(0, i + 1)[j] == x);
                                }
                            }
                        }
                        assert forall|x: u64| #[trigger] old(self).live(x) && !ids@.contains(x) implies {
                            &&& self.home@[x] == old(self).home@[x]
                            &&& old(self).home@[x] < 4 ==> self.slots@[slot_index(old(self).home@[x], old(self).deadline(x))]@.contains(x)
                            &&& old(self).home@[x] == 4 ==> self.overflow@.contains(x)
                        } by {
                            assert(x != id);
                            if old(self).home@[x] < 4 {
                                lemma_slot_index_range(old(self).home@[x], old(self).deadline(x));
                            }
                        }
                    }
                },
                None => {
                    proof {
                        assert forall|x: u64| #[trigger] old(self).live(x) && ids@.contains(x) implies {
                            &&& ids@.subrange(0, i + 1).contains(x) ==> {
                                &&& self.home@[x] == insert_level(old(self).deadline(x), c as int)
                                &&& self.slots@[slot_index(self.home@[x], old(self).deadline(x))]@.contains(x)
                            }
                            &&& !ids@.subrange(0, i + 1).contains(x) ==> self.home@[x] == l
                        } by {
                            assert(x != id);
                            if ids@.subrange(0, i + 1).contains(x) {
                                let p1 = ids@.subrange(0, i + 1);
                                let j = choose|j: int| 0 <= j < p1.len() && p1[j] == x;
                                assert(j != i);
                                assert(ids@.subrange(0, i as int)[j] == x);
                            }
                            if ids@.subrange(0, i as int).contains(x) {
                                let p0 = ids@.subrange(0, i as int);
                                let j = choose|j: int| 0 <= j < p0.len() && p0[j] == x;
                                assert(ids@.subrange(0, i + 1)[j] == x);
                            }
                        }
                    }
                },
            }
            i = i + 1;
        }
        proof {
            assert(ids@.subrange(0, ids@.len() as int) =~= ids@);
            assert forall|x: u64| #[trigger] self.timers@.contains_key(x) implies {
                let h = self.home@[x];
                let d = self.deadline(x);
                if h < 4 {
                    &&& placed(h, d, self.now()) || (h >= l + 1 && cascade_tick(h, d) == self.now())
                    &&& self.slots@[slot_index(h, d)]@.contains(x)
                } else {
                    &&& d >= floor
                    &&& self.overflow@.contains(x)
                }
            } by {
                assert(old(self).live(x));
                let d = old(self).deadline(x);
                if ids@.contains(x) {
                    lemma_insert_placed(d, c as int);
                } else {
                }
            }
        }
    }

    /// Move overflow timers into the wheel if they are now within range.
    fn reinsert_overflow(&mut self, Ghost(floor): Ghost<int>)
        requires
            old(self).ids_ok(),
            old(self).slots_ok(),
            old(self).overflow_ok(),
            old(self).homes_ok(4, floor),
            floor >= old(self).now(),
        ensures
            final(self).structure_ok(),
            final(self).tally == old(self).tally,
            final(self).timers == old(self).timers,
            final(self).current_tick == old(self).current_tick,
            final(self).next_id == old(self).next_id,
            final(self).handed_out == old(self).handed_out,
    {
        let mut ids: Vec<u64> = Vec::new();
        std::mem::swap(&mut ids, &mut self.overflow);
        let ghost taken = *self;
        let c = self.current_tick;
        proof {
            assert forall|x: u64| #[trigger] old(self).live(x) && ids@.contains(x) implies {
                &&& old(self).home@[x] == 4
                &&& taken.nowhere(x)
            } by {
                let j = choose|j: int| 0 <= j < ids@.len() && ids@[j] == x;
                assert(old(self).overflow@[j] == x);
                assert forall|k: int, i: int|
                    0 <= k < NUM_SLOTS && 0 <= i < taken.slots@[k]@.len() implies #[trigger] taken.slots@[k]@[i] != x by {
                    assert(old(self).slot_entry_ok(k, old(self).slots@[k]@[i]));
                }
            }
            assert forall|x: u64| #[trigger] old(self).live(x) && old(self).home@[x] == 4 implies ids@.contains(x) by {
            }
        }
        let mut i: usize = 0;
        while i < ids.len()
            invariant
                self.tally == old(self).tally,
                i <= ids@.len(),
                c == self.current_tick,
                floor >= c,
                self.timers == old(self).timers,
                self.current_tick == old(self).current_tick,
                self.next_id == old(self).next_id,
                self.handed_out == old(self).handed_out,
                self.ids_ok(),
                self.slots_ok(),
                self.overflow_ok(),
                forall|x: u64| #[trigger] old(self).live(x) && ids@.contains(x) ==> {
                    &&& old(self).home@[x] == 4
                    &&& old(self).deadline(x) >= floor
                    &&& self.only_at(x, insert_level(old(self).deadline(x), c as int), old(self).deadline(x))
                    &&& ids@.subrange(0, i as int).contains(x) ==> {
                        &&& self.home@[x] == insert_level(old(self).deadline(x), c as int)
                        &&& self.home@[x] < 4 ==> self.slots@[slot_index(self.home@[x], old(self).deadline(x))]@.contains(x)
                        &&& self.home@[x] == 4 ==> self.overflow@.contains(x)
                    }
                    &&& !ids@.subrange(0, i as int).contains(x) ==> self.home@[x] == 4
                },
                forall|x: u64| #[trigger] old(self).live(x) && !ids@.contains(x) ==> {
                    &&& self.home@[x] == old(self).home@[x]
                    &&& self.home@[x] < 4
                    &&& self.slots@[slot_index(old(self).home@[x], old(self).deadline(x))]@.contains(x)
                },
            decreases ids@.len() - i,
        {
            let id = ids[i];
            let ghost before = *self;
            match self.timers.get(&id) {
                Some(entry) => {
                    let deadline = entry.deadline_tick;
                    proof {
                        assert(ids@[i as int] == id);
                        assert(ids@.contains(id));
                        assert(old(self).live(id));
                        assert(deadline == old(self).deadline(id));
                    }
                    self.insert_into_wheel(id, deadline);
                    proof {
                        let ll = insert_level(deadline as int, c as int);
                        if ll < 4 {
                            let k = slot_index(ll, deadline as int);
                            lemma_slot_index_range(ll, deadline as int);
                            assert(self.slots@[k]@[self.slots@[k]@.len() - 1] == id);
                        } else {
                            assert(self.overflow@[self.overflow@.len() - 1] == id);
                        }
                        assert forall|x: u64| #[trigger] old(self).live(x) && ids@.contains(x) implies {
                            &&& self.only_at(x, insert_level(old(self).deadline(x), c as int), old(self).deadline(x))
                            &&& ids@.subrange(0, i + 1).contains(x) ==> {
                                &&& self.home@[x] == insert_level(old(self).deadline(x), c as int)
                                &&& self.home@[x] < 4 ==> self.slots@[slot_index(self.home@[x], old(self).deadline(x))]@.contains(x)
                                &&& self.home@[x] == 4 ==> self.overflow@.contains(x)
                            }
                            &&& !ids@.subrange(0, i + 1).contains(x) ==> self.home@[x] == 4
                        } by {
                            let dx = old(self).deadline(x);
                            let lx = insert_level(dx, c as int);
                            assert(before.only_at(x, lx, dx));
                            assert forall|kk: int, j: int|
                                0 <= kk < NUM_SLOTS && 0 <= j < self.slots@[kk]@.len() && #[trigger] self.slots@[kk]@[j]
                                    == x implies lx < 4 && kk == slot_index(lx, dx) by {
                                if ll < 4 && kk == slot_index(ll, deadline as int) && j == self.slots@[kk]@.len() - 1 {
                                    assert(x == id);
                                } else {
                                    assert(before.slots@[kk]@[j] == x);
                                }
                            }
                            assert forall|j: int| 0 <= j < self.overflow@.len() && #[trigger] self.overflow@[j] == x implies lx == 4 by {
                                if ll == 4 && j == self.overflow@.len() - 1 {
                                    assert(x == id);
                                } else {
                                    assert(before.overflow@[j] == x);
                                }
                            }
                            let p0 = ids@.subrange(0, i as int);
                            let p1 = ids@.subrange(0, i + 1);
                            if p0.contains(x) {
                                let j = choose|j: int| 0 <= j < p0.len() && p0[j] == x;
                                assert(p1[j] == x);
                                if lx < 4 {
                                    lemma_slot_index_range(lx, dx);
                                }
                            }
                            if x == id {
                                assert(p1[i as int] == x);
                            }
                            if p1.contains(x) && x != id {
                                let j = choose|j: int| 0 <= j < p1.len() && p1[j] == x;
                                assert(p0[j] == x);
                            }
                        }
                        assert forall|x: u64| #[trigger] old(self).live(x) && !ids@.contains(x) implies {
                            &&& self.home@[x] == old(self).home@[x]
                            &&& self.home@[x] < 4
                            &&& self.slots@[slot_index(old(self).home@[x], old(self).deadline(x))]@.contains(x)
                        } by {
                            assert(x != id);
                            lemma_slot_index_range(old(self).home@[x], old(self).deadline(x));
                        }
                    }
                },
                None => {
                    proof {
                        assert forall|x: u64| #[trigger] old(self).live(x) && ids@.contains(x) implies {
                            &&& ids@.subrange(0, i + 1).contains(x) ==> {
                                &&& self.home@[x] == insert_level(old(self).deadline(x), c as int)
                                &&& self.home@[x] < 4 ==> self.slots@[slot_index(self.home@[x], old(self).deadline(x))]@.contains(x)
                                &&& self.home@[x] == 4 ==> self.overflow@.contains(x)
                            }
                            &&& !ids@.subrange(0, i + 1).contains(x) ==> self.home@[x] == 4
                        } by {
                            assert(x != id);
                            let p0 = ids@.subrange(0, i as int);
                            let p1 = ids@.subrange(0, i + 1);
                            if p1.contains(x) {
                                let j = choose|j: int| 0 <= j < p1.len() && p1[j] == x;
                                assert(j != i);
                                assert(p0[j] == x);
                            }
                            if p0.contains(x) {
                                let j = choose|j: int| 0 <= j < p0.len() && p0[j] == x;
                                assert(p1[j] == x);
                            }
                        }
                    }
                },
            }
            i = i + 1;
        }
        proof {
            assert(ids@.subrange(0, ids@.len() as int) =~= ids@);
            assert forall|x: u64| #[trigger] self.timers@.contains_key(x) implies {
                let h = self.home@[x];
                let d = self.deadline(x);
                if h < 4 {
                    &&& placed(h, d, self.now()) || (h >= 4 && cascade_tick(h, d) == self.now())
                    &&& self.slots@[slot_index(h, d)]@.contains(x)
                } else {
                    &&& d >= self.now() + MAX_RANGE_TICKS
                    &&& self.overflow@.contains(x)
                }
            } by {
                assert(old(self).live(x));
                let d = old(self).deadline(x);
                if ids@.contains(x) {
                    if d < c + MAX_RANGE_TICKS {
                        lemma_insert_placed(d, c as int);
                    }
                }
            }
        }
    }

    /// Drain every timer from every slot and the overflow list (used for large time jumps).
    #[verifier::rlimit(50)]
    fn drain_all_into(&mut self, expired: &mut Vec<TimerEntry<T>>, Ghost(base): Ghost<Map<u64, TimerEntry<T>>>)
        requires
            old(self).ids_ok(),
            old(self).slots_ok(),
            old(self).overflow_ok(),
            old(self).homes_ok(4, old(self).now()),
            handed_back(old(expired)@, base, old(self).timers@),
        ensures
            final(self).tally == old(self).tally,
            final(self).ids_ok(),
            final(self).slots_ok(),
            final(self).overflow_ok(),
            final(self).timers@ == Map::<u64, TimerEntry<T>>::empty(),
            final(self).overflow@.len() == 0,
            handed_back(final(expired)@, base, final(self).timers@),
            final(self).handed_out@ == old(self).handed_out@ + old(self).timers@.dom(),
            final(self).current_tick == old(self).current_tick,
            final(self).next_id == old(self).next_id,
            forall|j: int| 0 <= j < NUM_SLOTS ==> (#[trigger] final(self).slots@[j])@.len() == 0,
            old(expired)@.len() <= final(expired)@.len(),
            final(expired)@.subrange(0, old(expired)@.len() as int) == old(expired)@,
    {
        let mut k: usize = 0;
        assert(old(self).handed_out@ =~= old(self).handed_out@ + old(self).timers@.dom().difference(old(self).timers@.dom()));
        while k < NUM_SLOTS
            invariant
                self.tally == old(self).tally,
                k <= NUM_SLOTS,
                self.ids_ok(),
                self.slots_ok(),
                self.overflow_ok(),
                handed_back(expired@, base, self.timers@),
                self.overflow == old(self).overflow,
                self.current_tick == old(self).current_tick,
                self.next_id == old(self).next_id,
                self.home == old(self).home,
                forall|x: u64| #[trigger] self.timers@.contains_key(x) ==> {
                    &&& old(self).timers@.contains_key(x)
                    &&& self.timers@[x] == old(self).timers@[x]
                    &&& self.home@[x] < 4 ==> slot_index(self.home@[x], self.deadline(x)) >= k
                        && self.slots@[slot_index(self.home@[x], self.deadline(x))]@.contains(x)
                    &&& self.home@[x] == 4 ==> self.overflow@.contains(x)
                },
                forall|x: u64| #[trigger] old(self).timers@.contains_key(x) && !self.timers@.contains_key(x)
                    ==> self.handed_out@.contains(x),
                self.handed_out@ == old(self).handed_out@ + old(self).timers@.dom().difference(self.timers@.dom()),
                forall|j: int| 0 <= j < k ==> (#[trigger] self.slots@[j])@.len() == 0,
                old(expired)@.len() <= expired@.len(),
                expired@.subrange(0, old(expired)@.len() as int) == old(expired)@,
            decreases NUM_SLOTS - k,
        {
            let ghost prev_expired = expired@;
            let ids = self.take_slot(k);
            let ghost taken = *self;
            let ghost prev = *self;
            proof {
                assert forall|i: int| 0 <= i < ids@.len() && taken.live(#[trigger] ids@[i]) implies taken.nowhere(ids@[i]) by {
                    let x = ids@[i];
                    assert(taken.slots@.len() == NUM_SLOTS);
                    assert forall|kk: int, j: int|
                        0 <= kk < NUM_SLOTS && 0 <= j < taken.slots@[kk]@.len() implies #[trigger] taken.slots@[kk]@[j] != x by {
                        if taken.slots@[kk]@[j] == x {
                            assert(taken.slot_entry_ok(kk, taken.slots@[kk]@[j]));
                        }
                    }
                    assert forall|j: int| 0 <= j < taken.overflow@.len() implies #[trigger] taken.overflow@[j] != x by {
                    }
                }
            }
            self.fire_ids(&ids, expired, Ghost(base));
            proof {
                assert forall|x: u64| #[trigger] self.timers@.contains_key(x) implies {
                    &&& old(self).timers@.contains_key(x)
                    &&& self.timers@[x] == old(self).timers@[x]
                    &&& self.home@[x] < 4 ==> slot_index(self.home@[x], self.deadline(x)) >= k + 1
                        && self.slots@[slot_index(self.home@[x], self.deadline(x))]@.contains(x)
                    &&& self.home@[x] == 4 ==> self.overflow@.contains(x)
                } by {
                    assert(taken.live(x));
                    if self.home@[x] < 4 {
                        lemma_slot_index_range(self.home@[x], self.deadline(x));
                        if slot_index(self.home@[x], self.deadline(x)) == k {
                            assert(ids@.to_set().contains(x));
                        }
                    }
                }
                assert(expired@.subrange(0, old(expired)@.len() as int) =~= prev_expired.subrange(0, old(expired)@.len() as int));
                assert(self.handed_out@ =~= old(self).handed_out@ + old(self).timers@.dom().difference(self.timers@.dom()));
            }
            k = k + 1;
        }
        let ghost prev_expired = expired@;
        let mut ids: Vec<u64> = Vec::new();
        std::mem::swap(&mut ids, &mut self.overflow);
        let ghost taken = *self;
        proof {
            assert forall|i: int| 0 <= i < ids@.len() && taken.live(#[trigger] ids@[i]) implies taken.nowhere(ids@[i]) by {
                let x = ids@[i];
                assert forall|kk: int, j: int|
                    0 <= kk < NUM_SLOTS && 0 <= j < taken.slots@[kk]@.len() implies #[trigger] taken.slots@[kk]@[j] != x by {
                    if taken.slots@[kk]@[j] == x {
                        assert(taken.slot_entry_ok(kk, taken.slots@[kk]@[j]));
                        lemma_slot_index_range(taken.home@[x], taken.deadline(x));
                    }
                }
            }
        }
        self.fire_ids(&ids, expired, Ghost(base));
        proof {
            assert forall|x: u64| !self.timers@.contains_key(x) by {
                if self.timers@.contains_key(x) {
                    assert(taken.live(x));
                    if taken.home@[x] < 4 {
                        lemma_slot_index_range(taken.home@[x], taken.deadline(x));
                    } else {
                        assert(ids@.to_set().contains(x));
                    }
                }
            }
            assert(expired@.subrange(0, old(expired)@.len() as int) =~= prev_expired.subrange(0, old(expired)@.len() as int));
            assert(self.timers@ =~= Map::<u64, TimerEntry<T>>::empty());
            assert(self.handed_out@ =~= old(self).handed_out@ + old(self).timers@.dom());
        }
    }

    /// A live timer is never due before the tick the wheel stands at.
    proof fn lemma_live_not_past(&self, x: u64, due_from: int, floor: int)
        requires
            self.homes_ok(due_from, floor),
            self.live(x),
            floor >= self.now(),
            due_from >= 1,
        ensures
            self.deadline(x) >= self.now(),
            self.home@[x] >= 1 ==> self.deadline(x) > self.now() || (self.home@[x] < 4 && cascade_tick(self.home@[x], self.deadline(x)) == self.now()) || self.deadline(x) >= floor,
    {
    }

    /// Advance the wheel to `now_tick` and return all expired timer entries.
    ///
    /// If the jump is larger than the wheel can represent (e.g. after a long
    /// suspend), every timer is drained instead of iterating tick by tick.
    #[verifier::rlimit(80)]
    pub fn advance_to(&mut self, now_tick: u64) -> (expired: Vec<TimerEntry<T>>)
        requires
            old(self).wf(),
        ensures
            final(self).wf(),
            final(self).now() == if now_tick > old(self).now() { now_tick as int } else { old(self).now() },
            final(self).fresh_id() == old(self).fresh_id(),
            handed_back(expired@, old(self).entries(), final(self).entries()),
            forall|x: u64| #[trigger] final(self).entries().contains_key(x) <==> old(self).entries().contains_key(x)
                && !expires_at(old(self).entries()[x], old(self).now(), now_tick as int),
            final(self).handed_out_ids() == old(self).handed_out_ids() + old(self).entries().dom().difference(
                final(self).entries().dom(),
            ),
            final(self).entries().len() + expired@.len() == old(self).entries().len(),
            final(self).fired_once_count() == old(self).fired_once_count() + count_once(expired@),
            final(self).fired_repeating_count() == old(self).fired_repeating_count() + count_repeating(expired@),
            final(self).scheduled_count() == old(self).scheduled_count(),
            final(self).cancelled_count() == old(self).cancelled_count(),
            final(self).rearmed_count() == old(self).rearmed_count(),
            now_tick <= old(self).now() + MAX_RANGE_TICKS ==> forall|i: int, j: int|
                0 <= i < j < expired@.len() ==> (#[trigger] expired@[i]).deadline_tick <= (#[trigger] expired@[j]).deadline_tick,
    {
        let ghost base = self.timers@;
        let mut expired: Vec<TimerEntry<T>> = Vec::new();
        proof {
            assert(entry_ids(expired@) =~= Seq::<u64>::empty());
            assert forall|x: u64| #[trigger] self.timers@.contains_key(x) implies self.deadline(x) >= self.now() by {
                self.lemma_live_not_past(x, 4, self.now() + MAX_RANGE_TICKS);
            }
        }
        if now_tick > self.current_tick && now_tick - self.current_tick > MAX_RANGE_TICKS {
            self.drain_all_into(&mut expired, Ghost(base));
            self.current_tick = now_tick;
            proof {
                assert(self.homes_ok(4, self.now()));
            }
            self.reinsert_overflow(Ghost(self.now()));
            self.tally = Ghost((
                self.tally@.0,
                self.tally@.1,
                self.tally@.2 + count_once(expired@),
                self.tally@.3 + count_repeating(expired@),
                self.tally@.4,
            ));
            proof {
                lemma_handed_back_len(expired@, base, self.timers@);
                lemma_count_kinds(expired@);
            }
            return expired;
        }
        if now_tick > self.current_tick {
            let ghost target = now_tick as int;
            proof {
                assert(old(self).handed_out@ =~= old(self).handed_out@ + base.dom().difference(base.dom()));
            }
            while self.current_tick < now_tick
                invariant
                    self.tally == old(self).tally,
                    target == now_tick,
                    self.current_tick <= now_tick,
                    now_tick <= old(self).now() + MAX_RANGE_TICKS,
                    self.ids_ok(),
                    self.slots_ok(),
                    self.overflow_ok(),
                    self.homes_ok(4, target),
                    self.next_id == old(self).next_id,
                    handed_back(expired@, base, self.timers@),
                    forall|x: u64| #[trigger] base.contains_key(x) ==> (self.timers@.contains_key(x)
                        <==> base[x].deadline_tick >= self.current_tick),
                    self.handed_out@ == old(self).handed_out@ + base.dom().difference(self.timers@.dom()),
                    forall|j: int| 0 <= j < expired@.len() ==> (#[trigger] expired@[j]).deadline_tick < self.current_tick,
                    forall|a: int, b: int|
                        0 <= a < b < expired@.len() ==> (#[trigger] expired@[a]).deadline_tick <= (#[trigger] expired@[b]).deadline_tick,
                decreases now_tick - self.current_tick,
            {
                let c = self.current_tick;
                let ghost start = *self;
                let slot0 = (c % 256) as usize;
                let ids = self.take_slot(slot0);
                let ghost taken = *self;
                proof {
                    assert(slot0 == slot_index(0, c as int));
                    assert forall|i: int| 0 <= i < ids@.len() && taken.live(#[trigger] ids@[i]) implies
                        taken.nowhere(ids@[i]) && taken.home@[ids@[i]] == 0 && taken.deadline(ids@[i]) == c by {
                        let x = ids@[i];
                        assert(taken.slots@.len() == NUM_SLOTS);
                        lemma_slot_index_range(0, c as int);
                        let h = taken.home@[x];
                        let d = taken.deadline(x);
                        lemma_slot_index_range(h, d);
                        lemma_level0_due(d, c as int);
                        assert forall|kk: int, j: int|
                            0 <= kk < NUM_SLOTS && 0 <= j < taken.slots@[kk]@.len() implies #[trigger] taken.slots@[kk]@[j] != x by {
                            if taken.slots@[kk]@[j] == x {
                                assert(taken.slot_entry_ok(kk, taken.slots@[kk]@[j]));
                            }
                        }
                        assert forall|j: int| 0 <= j < taken.overflow@.len() implies #[trigger] taken.overflow@[j] != x by {
                        }
                    }
                }
                let ghost before_fire = *self;
                let ghost prev_expired = expired@;
                self.fire_ids(&ids, &mut expired, Ghost(base));
                self.current_tick = c + 1;
                proof {
                    assert forall|j: int| 0 <= j < expired@.len() implies (#[trigger] expired@[j]).deadline_tick
                        == c || (j < prev_expired.len() && expired@[j] == prev_expired[j]) by {
                        if j < prev_expired.len() {
                            assert(expired@[j] == expired@.subrange(0, prev_expired.len() as int)[j]);
                        } else {
                            let x = expired@[j].id.0;
                            assert(ids@.contains(x));
                            let i = choose|i: int| 0 <= i < ids@.len() && ids@[i] == x;
                            assert(taken.live(ids@[i]));
                        }
                    }
                    assert forall|j: int| 0 <= j < expired@.len() implies (#[trigger] expired@[j]).deadline_tick
                        < self.current_tick by {
                        if j < prev_expired.len() {
                            assert(expired@[j] == expired@.subrange(0, prev_expired.len() as int)[j]);
                        }
                    }
                    assert forall|a: int, b: int| 0 <= a < b < expired@.len() implies (#[trigger] expired@[a]).deadline_tick
                        <= (#[trigger] expired@[b]).deadline_tick by {
                        if a < prev_expired.len() {
                            assert(expired@[a] == expired@.subrange(0, prev_expired.len() as int)[a]);
                        }
                        if b < prev_expired.len() {
                            assert(expired@[b] == expired@.subrange(0, prev_expired.len() as int)[b]);
                        }
                    }

                    assert forall|x: u64| #[trigger] base.contains_key(x) implies (self.timers@.contains_key(x)
                        <==> base[x].deadline_tick >= self.current_tick) by {
                        if self.timers@.contains_key(x) {
                            assert(before_fire.live(x));
                            let d = before_fire.deadline(x);
                            if d == c {
                                let h = before_fire.home@[x];
                                if h >= 1 && h < 4 {
                                    assert(cascade_tick(h, d) <= d);
                                }
                                assert(h == 0);
                                lemma_slot_index_range(0, d);
                                assert(ids@.contains(x));
                                assert(ids@.to_set().contains(x));
                            }
                        } else if before_fire.live(x) {
                            assert(ids@.to_set().contains(x));
                            let i = choose|i: int| 0 <= i < ids@.len() && ids@[i] == x;
                            assert(taken.live(ids@[i]));
                        }
                    }
                    assert(self.handed_out@ =~= old(self).handed_out@ + base.dom().difference(self.timers@.dom()));
                    assert(self.homes_ok(1, target)) by {
                        assert forall|x: u64| #[trigger] self.timers@.contains_key(x) implies {
                            let h = self.home@[x];
                            let d = self.deadline(x);
                            if h < 4 {
                                &&& placed(h, d, self.now()) || (h >= 1 && cascade_tick(h, d) == self.now())
                                &&& self.slots@[slot_index(h, d)]@.contains(x)
                            } else {
                                &&& d >= target
                                &&& self.overflow@.contains(x)
                            }
                        } by {
                            assert(before_fire.live(x));
                            let h = self.home@[x];
                            let d = self.deadline(x);
                            assert(d >= self.current_tick);
                            if h < 4 {
                                lemma_slot_index_range(h, d);
                                lemma_slot_index_range(0, c as int);
                                if slot_index(h, d) != slot0 {
                                    assert(taken.slots@[slot_index(h, d)] == start.slots@[slot_index(h, d)]);
                                } else {
                                    assert(h == 0);
                                    lemma_level0_due(d, c as int);
                                }
                            }
                        }
                    }
                }
                if self.current_tick % 256 == 0 {
                    self.cascade(1, Ghost(target));
                    if self.current_tick % 16384 == 0 {
                        self.cascade(2, Ghost(target));
                        if self.current_tick % 1048576 == 0 {
                            self.cascade(3, Ghost(target));
                        }
                    }
                }
                proof {
                    assert forall|x: u64| #[trigger] self.timers@.contains_key(x) implies {
                        let h = self.home@[x];
                        let d = self.deadline(x);
                        if h < 4 {
                            &&& placed(h, d, self.now()) || (h >= 4 && cascade_tick(h, d) == self.now())
                            &&& self.slots@[slot_index(h, d)]@.contains(x)
                        } else {
                            &&& d >= target
                            &&& self.overflow@.contains(x)
                        }
                    } by {
                        let h = self.home@[x];
                        let d = self.deadline(x);
                        if 1 <= h < 4 && !placed(h, d, self.now()) {
                            if self.current_tick % 256 != 0 {
                                lemma_cascade_tick_aligned(h, 1, d);
                            } else if self.current_tick % 16384 != 0 {
                                lemma_cascade_tick_aligned(h, 2, d);
                            } else if self.current_tick % 1048576 != 0 {
                                lemma_cascade_tick_aligned(h, 3, d);
                            }
                        }
                    }
                }
            }
        }
        proof {
            assert forall|x: u64| #[trigger] self.timers@.contains_key(x) implies self.deadline(x) >= self.now() by {
                self.lemma_live_not_past(x, 4, self.now());
            }
        }
        proof {
            lemma_handed_back_len(expired@, base, self.timers@);
        }
        if self.overflow.len() > 0 {
            self.reinsert_overflow(Ghost(self.now()));
        } else {
            proof {
                assert forall|x: u64| #[trigger] self.timers@.contains_key(x) && self.home@[x] == 4 implies false by {
                    assert(self.overflow@.contains(x));
                }
            }
        }
        self.tally = Ghost((
            self.tally@.0,
            self.tally@.1,
            self.tally@.2 + count_once(expired@),
            self.tally@.3 + count_repeating(expired@),
            self.tally@.4,
        ));
        proof {
            lemma_count_kinds(expired@);
        }
        expired
    }

    /// Schedule again a repeating timer that `advance_to` handed out: it keeps
    /// its id and fires next one `interval` after `now_tick`.
    pub fn rearm(&mut self, timer_id: TimerId, payload: T, interval: u64, now_tick: u64)
        requires
            old(self).wf(),
            old(self).handed_out_ids().contains(timer_id.0),
            old(self).now() <= now_tick,
            now_tick + interval <= u64::MAX,
        ensures
            final(self).wf(),
            !old(self).entries().contains_key(timer_id.0),
            final(self).entries().len() == old(self).entries().len() + 1,
            final(self).entries() == old(self).entries().insert(
                timer_id.0,
                TimerEntry {
                    id: timer_id,
                    deadline_tick: (now_tick + interval) as u64,
                    kind: TimerKind::Repeating(payload, interval),
                },
            ),
            final(self).handed_out_ids() == old(self).handed_out_ids().remove(timer_id.0),
            final(self).now() == old(self).now(),
            final(self).fresh_id() == old(self).fresh_id(),
            final(self).rearmed_count() == old(self).rearmed_count() + 1,
            final(self).scheduled_count() == old(self).scheduled_count(),
            final(self).cancelled_count() == old(self).cancelled_count(),
            final(self).fired_once_count() == old(self).fired_once_count(),
            final(self).fired_repeating_count() == old(self).fired_repeating_count(),
    {
        let id = timer_id.0;
        self.tally = Ghost((self.tally@.0, self.tally@.1, self.tally@.2, self.tally@.3, self.tally@.4 + 1));
        proof {
            assert forall|k: int, i: int|
                0 <= k < NUM_SLOTS && 0 <= i < self.slots@[k]@.len() implies #[trigger] self.slots@[k]@[i] != id by {
                assert(self.slot_entry_ok(k, self.slots@[k]@[i]));
            }
        }
        self.add_timer(id, now_tick + interval, TimerKind::Repeating(payload, interval));
    }

    /// Re-arm, after their callbacks ran, the timers that `advance_to` handed
    /// back: each repeating one comes back under its id, one interval after
    /// `now_tick`; the one-shots are done and are dropped.
    pub fn rearm_fired(&mut self, fired: Vec<TimerEntry<T>>, now_tick: u64)
        requires
            old(self).wf(),
            old(self).now() <= now_tick,
            entry_ids(fired@).no_duplicates(),
            forall|i: int| 0 <= i < fired@.len() ==> old(self).handed_out_ids().contains(#[trigger] fired@[i].id.0),
            forall|i: int| 0 <= i < fired@.len() ==> ((#[trigger] fired@[i]).kind matches TimerKind::Repeating(_, interval)
                ==> now_tick + interval <= u64::MAX),
        ensures
            final(self).wf(),
            final(self).entries() == rearmed_entries(old(self).entries(), fired@, now_tick),
            final(self).handed_out_ids() == old(self).handed_out_ids().difference(repeating_ids(fired@)),
            final(self).now() == old(self).now(),
            final(self).fresh_id() == old(self).fresh_id(),
            final(self).rearmed_count() == old(self).rearmed_count() + count_repeating(fired@),
            final(self).scheduled_count() == old(self).scheduled_count(),
            final(self).cancelled_count() == old(self).cancelled_count(),
            final(self).fired_once_count() == old(self).fired_once_count(),
            final(self).fired_repeating_count() == old(self).fired_repeating_count(),
            forall|i: int| 0 <= i < fired@.len() ==> ((#[trigger] fired@[i]).kind matches TimerKind::Repeating(
                p,
                interval,
            ) ==> {
                &&& final(self).entries().contains_key(fired@[i].id.0)
                &&& final(self).entries()[fired@[i].id.0] == TimerEntry {
                    id: fired@[i].id,
                    deadline_tick: (now_tick + interval) as u64,
                    kind: TimerKind::Repeating(p, interval),
                }
            }),
            forall|x: u64| #![trigger final(self).entries().contains_key(x)]
                !repeating_ids(fired@).contains(x) ==> {
                    &&& final(self).entries().contains_key(x) == old(self).entries().contains_key(x)
                    &&& old(self).entries().contains_key(x) ==> final(self).entries()[x] == old(self).entries()[x]
                },
    {
        proof {
            assert forall|i: int| 0 <= i < fired@.len() && (#[trigger] fired@[i]).kind is Repeating implies
                rearmed_entries(old(self).entries(), fired@, now_tick).contains_key(fired@[i].id.0) by {
                rearmed_timers_keep_their_own_interval(old(self).entries(), fired@, now_tick, i);
            }
            assert forall|x: u64| !repeating_ids(fired@).contains(x) implies
                rearmed_entries(old(self).entries(), fired@, now_tick).contains_key(x) == old(self).entries().contains_key(x)
                && (old(self).entries().contains_key(x) ==> rearmed_entries(old(self).entries(), fired@, now_tick)[x]
                    == old(self).entries()[x]) by {
                rearming_leaves_other_timers_alone(old(self).entries(), fired@, now_tick, x);
            }
            assert forall|i: int| 0 <= i < fired@.len() implies ((#[trigger] fired@[i]).kind matches TimerKind::Repeating(
                p,
                interval,
            ) ==> rearmed_entries(old(self).entries(), fired@, now_tick)[fired@[i].id.0] == TimerEntry {
                id: fired@[i].id,
                deadline_tick: (now_tick + interval) as u64,
                kind: TimerKind::Repeating(p, interval),
            }) by {
                if fired@[i].kind is Repeating {
                    rearmed_timers_keep_their_own_interval(old(self).entries(), fired@, now_tick, i);
                }
            }
        }
        let ghost fs = fired@;
        let ghost start = *self;
        proof {
            assert(fs.take(0) =~= Seq::<TimerEntry<T>>::empty());
            assert(start.handed_out_ids().difference(Set::<u64>::empty()) =~= start.handed_out_ids());
        }
        for e in it: fired.into_iter()
            invariant
                it.seq() == fs,
                self.wf(),
                start.now() <= now_tick,
                self.now() == start.now(),
                self.fresh_id() == start.fresh_id(),
                entry_ids(fs).no_duplicates(),
                forall|i: int| 0 <= i < fs.len() ==> start.handed_out_ids().contains(#[trigger] fs[i].id.0),
                forall|i: int| 0 <= i < fs.len() ==> ((#[trigger] fs[i]).kind matches TimerKind::Repeating(_, interval)
                    ==> now_tick + interval <= u64::MAX),
                self.entries() == rearmed_entries(start.entries(), fs.take(it.index() as int), now_tick),
                self.handed_out_ids() == start.handed_out_ids().difference(repeating_ids(fs.take(it.index() as int))),
                self.rearmed_count() == start.rearmed_count() + count_repeating(fs.take(it.index() as int)),
                self.scheduled_count() == start.scheduled_count(),
                self.cancelled_count() == start.cancelled_count(),
                self.fired_once_count() == start.fired_once_count(),
                self.fired_repeating_count() == start.fired_repeating_count(),
        {
            let ghost k = it.index() as int;
            proof {
                assert(fs.take(k + 1).drop_last() =~= fs.take(k));
                assert(fs.take(k + 1).last() == fs[k]);
            }
            let TimerEntry { id, deadline_tick: _, kind } = e;
            match kind {
                TimerKind::Repeating(payload, interval) => {
                    proof {
                        if repeating_ids(fs.take(k)).contains(id.0) {
                            lemma_repeating_ids_in(fs.take(k), id.0);
                            let j = choose|j: int| 0 <= j < entry_ids(fs.take(k)).len() && entry_ids(fs.take(k))[j] == id.0;
                            assert(entry_ids(fs)[j] == entry_ids(fs)[k]);
                        }
                    }
                    self.rearm(id, payload, interval, now_tick);
                    proof {
                        assert(self.handed_out_ids() =~= start.handed_out_ids().difference(
                            repeating_ids(fs.take(k + 1)),
                        ));
                    }
                },
                TimerKind::Once(_) => {},
            }
        }
        proof {
            assert(fs.take(fs.len() as int) =~= fs);
        }
    }

    /// Ticks until the nearest pending timer (zero when one is overdue), or
    /// `None` if no timer is pending.
    pub fn time_until_next(&self, now_tick: u64) -> (r: Option<u64>)
        ensures
            r is None <==> self.entries().dom().is_empty(),
            r matches Some(v) ==> exists|x: u64| #[trigger] self.entries().contains_key(x) && {
                let d = self.entries()[x].deadline_tick;
                &&& forall|y: u64| #[trigger] self.entries().contains_key(y) ==> d <= self.entries()[y].deadline_tick
                &&& v == if d <= now_tick { 0 } else { (d - now_tick) as u64 }
            },
    {
        if self.timers.len() == 0 {
            proof {
                if !self.timers@.dom().is_empty() {
                    let x = self.timers@.dom().choose();
                    assert(self.timers@.dom().contains(x));
                    assert(self.timers@.dom().len() > 0) by {
                        vstd::set_lib::lemma_set_empty_equivalency_len(self.timers@.dom());
                    }
                }
            }
            return None;
        }
        let mut earliest: Option<u64> = None;
        let ghost all = vstd::std_specs::hash::spec_values_iter(&self.timers).remaining();
        for e in it: self.timers.values()
            invariant
                it.seq() == all,
                earliest is None <==> it.index() == 0,
                earliest matches Some(m) ==> exists|j: int| 0 <= j < it.index() && (#[trigger] all[j]).deadline_tick == m,
                earliest matches Some(m) ==> forall|j: int| 0 <= j < it.index() ==> m <= (#[trigger] all[j]).deadline_tick,
        {
            let d = e.deadline_tick;
            earliest = match earliest {
                None => Some(d),
                Some(m) => if d < m { Some(d) } else { Some(m) },
            };
        }
        proof {
            assert(all.len() == self.timers@.dom().len());
            assert(all.len() > 0);
            let m = earliest->Some_0;
            let j = choose|j: int| 0 <= j < all.len() && (#[trigger] all[j]).deadline_tick == m;
            let v = *all[j];
            assert(all.unref()[j] == v);
            assert(all.unref().to_set().contains(v));
            assert(self.timers@.values().contains(v));
            let x = choose|x: u64| self.timers@.contains_key(x) && self.timers@[x] == v;
            assert forall|y: u64| #[trigger] self.timers@.contains_key(y) implies m <= self.timers@[y].deadline_tick by {
                let w = self.timers@[y];
                assert(self.timers@.values().contains(w));
                assert(all.unref().to_set().contains(w));
                let i = choose|i: int| 0 <= i < all.unref().len() && all.unref()[i] == w;
                assert(all[i].deadline_tick >= m);
            }
            assert(self.timers@.contains_key(x));
        }
        let m = match earliest {
            Some(m) => m,
            None => u64::MAX,
        };
        if m <= now_tick {
            Some(0)
        } else {
            Some(m - now_tick)
        }
    }
}


/// Every live timer has an id below the next fresh id, and none of them is
/// among the ids handed out for re-arming: a new timer never takes the id of a
/// live one, so scheduling always adds one pending timer.
pub proof fn live_ids_are_below_fresh_id<T>(w: &TimerWheel<T>, x: u64)
    requires
        w.wf(),
        w.entries().contains_key(x),
    ensures
        x < w.fresh_id(),
        !w.handed_out_ids().contains(x),
{
}


/// The pending-count law: every timer that was scheduled or re-armed is still
/// pending, was cancelled, or fired. So once every repeating timer that fired
/// has been re-armed (as the event loop does after each tick), the pending
/// timers are those scheduled, less those cancelled and the one-shots that fired.
pub proof fn pending_timers_are_scheduled_less_cancelled_and_fired<T>(w: &TimerWheel<T>)
    requires
        w.wf(),
    ensures
        w.entries().len() + w.cancelled_count() + w.fired_once_count() + w.fired_repeating_count()
            == w.scheduled_count() + w.rearmed_count(),
        w.rearmed_count() == w.fired_repeating_count() ==> w.entries().len() == w.scheduled_count()
            - w.cancelled_count() - w.fired_once_count(),
{
}


/// Re-arming a batch of fired timers brings each repeating one back under its
/// own id, one of its own intervals after the re-arm tick, with its own payload:
/// what the others in the batch are plays no part.
pub proof fn rearmed_timers_keep_their_own_interval<T>(
    m: Map<u64, TimerEntry<T>>,
    fired: Seq<TimerEntry<T>>,
    now_tick: u64,
    i: int,
)
    requires
        entry_ids(fired).no_duplicates(),
        0 <= i < fired.len(),
        (fired[i].kind is Repeating),
    ensures
        rearmed_entries(m, fired, now_tick).contains_key(fired[i].id.0),
        (fired[i].kind matches TimerKind::Repeating(p, interval) ==> rearmed_entries(m, fired, now_tick)[fired[i].id.0]
            == (TimerEntry {
            id: fired[i].id,
            deadline_tick: (now_tick + interval) as u64,
            kind: TimerKind::Repeating(p, interval),
        })),
    decreases fired.len(),
{
    let n = fired.len() - 1;
    if i < n {
        let rest = fired.drop_last();
        assert forall|a: int, b: int| 0 <= a < b < entry_ids(rest).len() implies entry_ids(rest)[a]
            != entry_ids(rest)[b] by {
            assert(entry_ids(rest)[a] == entry_ids(fired)[a]);
            assert(entry_ids(rest)[b] == entry_ids(fired)[b]);
        }
        assert(rest[i] == fired[i]);
        rearmed_timers_keep_their_own_interval(m, rest, now_tick, i);
        assert(entry_ids(fired)[i] != entry_ids(fired)[n]);
    }
}

/// Re-arming a batch leaves every timer that is not a repeating timer of the
/// batch as it was: pending or not, with the same entry.
pub proof fn rearming_leaves_other_timers_alone<T>(
    m: Map<u64, TimerEntry<T>>,
    fired: Seq<TimerEntry<T>>,
    now_tick: u64,
    x: u64,
)
    requires
        !repeating_ids(fired).contains(x),
    ensures
        rearmed_entries(m, fired, now_tick).contains_key(x) == m.contains_key(x),
        m.contains_key(x) ==> rearmed_entries(m, fired, now_tick)[x] == m[x],
    decreases fired.len(),
{
    if fired.len() > 0 {
        rearming_leaves_other_timers_alone(m, fired.drop_last(), now_tick, x);
    }
}

} // verus!
