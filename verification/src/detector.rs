//! Dark-zone detection: a vessel whose last report is older than the
//! threshold "goes dark"; the detector opens one event per dark vessel and
//! closes it when the vessel is heard again.
use vstd::prelude::*;
use crate::clock::now_ns;
use crate::frame::VesselState;

verus! {

/// An open dark event: a vessel that has not been heard for at least the
/// threshold, with what was last known of it.
#[derive(Debug, Clone, Copy, PartialEq, Eq)]
pub struct DarkEvent {
    pub dark_event_id: u64,
    pub mmsi: u32,
    pub gap_start_ns: i64,
    pub gap_end_ns: Option<i64>,
    /// Last known latitude, 1/10000 arc-minute.
    pub last_lat: i32,
    /// Last known longitude, 1/10000 arc-minute.
    pub last_lon: i32,
    /// Last known speed over ground, tenths of a knot.
    pub last_sog: u16,
    /// Last known course over ground, tenths of a degree.
    pub last_cog: u16,
    pub is_ongoing: bool,
}

/// The event opened with number `id` for vessel `mmsi` whose latest state
/// is `st`.
pub open spec fn opened_event(id: u64, mmsi: u32, st: VesselState) -> DarkEvent {
    DarkEvent {
        dark_event_id: id,
        mmsi,
        gap_start_ns: st.last_seen_ns,
        gap_end_ns: None,
        last_lat: st.lat,
        last_lon: st.lon,
        last_sog: st.sog,
        last_cog: st.cog,
        is_ongoing: true,
    }
}

/// One vessel of a sweep: with silence `now - last_seen`, a vessel without
/// an event whose silence reaches the threshold gets a new event numbered
/// `next`; a vessel with an event whose silence is below the threshold has
/// it closed (removed); otherwise nothing changes.
pub open spec fn sweep_step(
    m: Map<u32, DarkEvent>,
    next: int,
    mmsi: u32,
    st: VesselState,
    now: int,
    thr: int,
) -> (Map<u32, DarkEvent>, int) {
    let gap = now - st.last_seen_ns;
    if !m.contains_key(mmsi) && gap >= thr {
        (m.insert(mmsi, opened_event(next as u64, mmsi, st)), next + 1)
    } else if m.contains_key(mmsi) && gap < thr {
        (m.remove(mmsi), next)
    } else {
        (m, next)
    }
}

/// A sweep over the vessels `obs`, in order, from events `m` and next event
/// number `next`.
pub open spec fn sweep_model(
    m: Map<u32, DarkEvent>,
    next: int,
    obs: Seq<(u32, VesselState)>,
    now: int,
    thr: int,
) -> (Map<u32, DarkEvent>, int)
    decreases obs.len(),
{
    if obs.len() == 0 {
        (m, next)
    } else {
        let r = sweep_model(m, next, obs.drop_last(), now, thr);
        sweep_step(r.0, r.1, obs.last().0, obs.last().1, now, thr)
    }
}

/// The events of a list, keyed by vessel.
pub open spec fn events_map(s: Seq<DarkEvent>) -> Map<u32, DarkEvent>
    decreases s.len(),
{
    if s.len() == 0 {
        Map::empty()
    } else {
        events_map(s.drop_last()).insert(s.last().mmsi, s.last())
    }
}

/// No two events of `s` concern the same vessel.
pub open spec fn distinct_vessels(s: Seq<DarkEvent>) -> bool {
    forall|i: int, j: int|
        0 <= i < s.len() && 0 <= j < s.len() && i != j ==> #[trigger] s[i].mmsi != #[trigger] s[j].mmsi
}

pub proof fn lemma_events_map_contains(s: Seq<DarkEvent>, k: u32)
    requires
        distinct_vessels(s),
    ensures
        events_map(s).contains_key(k) <==> exists|i: int| 0 <= i < s.len() && #[trigger] s[i].mmsi == k,
        forall|i: int| 0 <= i < s.len() && #[trigger] s[i].mmsi == k ==> events_map(s)[k] == s[i],
    decreases s.len(),
{
    if s.len() > 0 {
        let init = s.drop_last();
        assert(distinct_vessels(init));
        lemma_events_map_contains(init, k);
        if s.last().mmsi != k {
            if events_map(s).contains_key(k) {
                let i = choose|i: int| 0 <= i < init.len() && #[trigger] init[i].mmsi == k;
                assert(s[i].mmsi == k);
            }
            if exists|i: int| 0 <= i < s.len() && #[trigger] s[i].mmsi == k {
                let i = choose|i: int| 0 <= i < s.len() && #[trigger] s[i].mmsi == k;
                assert(i < s.len() - 1);
                assert(init[i].mmsi == k);
            }
        } else {
            assert(s[s.len() - 1].mmsi == k);
        }
        assert forall|i: int| 0 <= i < s.len() && #[trigger] s[i].mmsi == k implies events_map(s)[k]
            == s[i] by {
            if i < s.len() - 1 {
                assert(init[i].mmsi == k);
                assert(s[s.len() - 1].mmsi != k);
            }
        }
    }
}

proof fn lemma_events_map_remove(s: Seq<DarkEvent>, i: int)
    requires
        distinct_vessels(s),
        0 <= i < s.len(),
    ensures
        distinct_vessels(s.remove(i)),
        events_map(s.remove(i)) == events_map(s).remove(s[i].mmsi),
    decreases s.len(),
{
    let r = s.remove(i);
    assert(distinct_vessels(r)) by {
        assert forall|a: int, b: int|
            0 <= a < r.len() && 0 <= b < r.len() && a != b implies #[trigger] r[a].mmsi
            != #[trigger] r[b].mmsi by {
            let a2 = if a < i { a } else { a + 1 };
            let b2 = if b < i { b } else { b + 1 };
            assert(r[a] == s[a2]);
            assert(r[b] == s[b2]);
        }
    }
    if i == s.len() - 1 {
        assert(r =~= s.drop_last());
        lemma_events_map_contains(s.drop_last(), s[i].mmsi);
        assert forall|a: int| 0 <= a < s.drop_last().len() implies #[trigger] s.drop_last()[a].mmsi
            != s[i].mmsi by {
            assert(s[a].mmsi != s[i].mmsi);
        }
        assert(events_map(r) =~= events_map(s).remove(s[i].mmsi));
    } else {
        let init = s.drop_last();
        assert(distinct_vessels(init));
        lemma_events_map_remove(init, i);
        assert(r.drop_last() =~= init.remove(i));
        assert(r.last() == s.last());
        assert(s.last().mmsi != s[i].mmsi);
        assert(events_map(r) =~= events_map(s).remove(s[i].mmsi));
    }
}

/// Every event is keyed by its own vessel, ongoing, without an end, and
/// numbered below `next`.
pub open spec fn events_well_formed(m: Map<u32, DarkEvent>, next: int) -> bool {
    forall|k: u32| #[trigger]
        m.contains_key(k) ==> {
            let e = m[k];
            &&& e.mmsi == k
            &&& e.is_ongoing
            &&& e.gap_end_ns is None
            &&& e.dark_event_id < next
        }
}

/// Tracks the open dark events.
pub struct DarkZoneDetector {
    threshold_ns: i64,
    active: Vec<DarkEvent>,
    next_id: u64,
}

impl DarkZoneDetector {
    #[verifier::type_invariant]
    spec fn wf(self) -> bool {
        &&& distinct_vessels(self.active@)
        &&& distinct_ids(events_map(self.active@))
        &&& forall|i: int|
            0 <= i < self.active@.len() ==> {
                let e = #[trigger] self.active@[i];
                &&& e.dark_event_id < self.next_id
                &&& e.is_ongoing
                &&& e.gap_end_ns is None
            }
    }

    /// The open events, keyed by vessel.
    pub closed spec fn events(self) -> Map<u32, DarkEvent> {
        events_map(self.active@)
    }

    /// The number the next opened event gets.
    pub closed spec fn next_event_id(self) -> u64 {
        self.next_id
    }

    /// The silence (nanoseconds) at which a vessel goes dark.
    pub closed spec fn threshold(self) -> i64 {
        self.threshold_ns
    }

    /// A detector with no open events whose threshold is `threshold_ns`
    /// nanoseconds (read as an `i64`, wrapping as Rust's `as` does).
    pub fn new(threshold_ns: u128) -> (d: Self)
        ensures
            d.events() == Map::<u32, DarkEvent>::empty(),
            events_well_formed(d.events(), d.next_event_id() as int),
            distinct_ids(d.events()),
            d.next_event_id() == 1,
            d.threshold() == threshold_ns as i64,
    {
        #[verifier::truncate]
        let t = threshold_ns as i64;
        let d = DarkZoneDetector { threshold_ns: t, active: Vec::new(), next_id: 1 };
        assert(d.active@ =~= Seq::<DarkEvent>::empty());
        assert(d.events() =~= Map::<u32, DarkEvent>::empty());
        d
    }

    proof fn lemma_wf_events(&self)
        requires
            self.wf(),
        ensures
            events_well_formed(self.events(), self.next_event_id() as int),
    {
        assert forall|k: u32| #[trigger] self.events().contains_key(k) implies {
            let e = self.events()[k];
            &&& e.mmsi == k
            &&& e.is_ongoing
            &&& e.gap_end_ns is None
            &&& e.dark_event_id < self.next_event_id()
        } by {
            lemma_events_map_contains(self.active@, k);
            let i = choose|i: int| 0 <= i < self.active@.len() && #[trigger] self.active@[i].mmsi
                == k;
        }
    }

    /// A copy of the open events.
    fn copy_events(&self) -> (v: Vec<DarkEvent>)
        ensures
            v@ == self.active@,
    {
        let mut v: Vec<DarkEvent> = Vec::new();
        let mut i: usize = 0;
        while i < self.active.len()
            invariant
                i <= self.active@.len(),
                v@ == self.active@.take(i as int),
            decreases self.active@.len() - i,
        {
            v.push(self.active[i]);
            i = i + 1;
            assert(v@ =~= self.active@.take(i as int));
        }
        assert(self.active@.take(self.active@.len() as int) =~= self.active@);
        v
    }

    /// Sweeps the vessel map at time `now`: for each vessel, in order, an
    /// event is opened when it has been silent for at least the threshold
    /// and has none, and closed when it has one and has been heard within
    /// the threshold. Returns `false`, changing nothing, when the event
    /// counter would pass `u64::MAX`.
    pub fn sweep_at(&mut self, vessels: &Vec<(u32, VesselState)>, now: i64) -> (done: bool)
        ensures
            swept(*old(self), *final(self), vessels@, now as int, done),
            final(self).threshold() == old(self).threshold(),
            events_well_formed(final(self).events(), final(self).next_event_id() as int),
            distinct_ids(final(self).events()),
    {
        proof {
            use_type_invariant(&*self);
            self.lemma_wf_events();
        }
        let thr = self.threshold_ns;
        let mut active = self.copy_events();
        let mut next = self.next_id;
        let ghost m0 = self.events();
        let ghost n0 = self.next_id as int;
        let mut i: usize = 0;
        assert(vessels@.take(0) =~= Seq::<(u32, VesselState)>::empty());
        while i < vessels.len()
            invariant
                i <= vessels@.len(),
                *self == *old(self),
                m0 == self.events(),
                n0 == self.next_event_id() as int,
                thr == self.threshold(),
                events_well_formed(m0, n0),
                distinct_vessels(active@),
                forall|a: int|
                    0 <= a < active@.len() ==> {
                        let e = #[trigger] active@[a];
                        &&& e.dark_event_id < next
                        &&& e.is_ongoing
                        &&& e.gap_end_ns is None
                    },
                (events_map(active@), next as int) == sweep_model(
                    m0,
                    n0,
                    vessels@.take(i as int),
                    now as int,
                    thr as int,
                ),
            decreases vessels@.len() - i,
        {
            let ghost before = active@;
            assert(vessels@.take(i + 1).drop_last() =~= vessels@.take(i as int));
            assert(vessels@.take(i + 1).last() == vessels@[i as int]);
            let mmsi = vessels[i].0;
            let seen = vessels[i].1.last_seen_ns;
            let gap: i128 = now as i128 - seen as i128;
            match find_event(&active, mmsi) {
                None => {
                    proof {
                        lemma_events_map_contains(active@, mmsi);
                    }
                    if gap >= thr as i128 {
                        if next == u64::MAX {
                            proof {
                                use_type_invariant(&*self);
                            }
                            proof {
                                lemma_sweep_next_mono(m0, n0, vessels@, (i + 1) as int, now as int, thr as int);
                                assert(sweep_model(m0, n0, vessels@.take(i + 1), now as int, thr as int).1 == next + 1);
                            }
                            return false;
                        }
                        let st = &vessels[i].1;
                        let e = DarkEvent {
                            dark_event_id: next,
                            mmsi,
                            gap_start_ns: st.last_seen_ns,
                            gap_end_ns: None,
                            last_lat: st.lat,
                            last_lon: st.lon,
                            last_sog: st.sog,
                            last_cog: st.cog,
                            is_ongoing: true,
                        };
                        active.push(e);
                        next = next + 1;
                        assert(active@.drop_last() =~= before);
                        assert(distinct_vessels(active@)) by {
                            assert forall|a: int, b: int|
                                0 <= a < active@.len() && 0 <= b < active@.len() && a != b implies #[trigger] active@[a].mmsi
                                != #[trigger] active@[b].mmsi by {
                                if a < before.len() && b < before.len() {
                                    assert(active@[a] == before[a]);
                                    assert(active@[b] == before[b]);
                                } else if a < before.len() {
                                    assert(active@[a] == before[a]);
                                } else if b < before.len() {
                                    assert(active@[b] == before[b]);
                                }
                            }
                        }
                    }
                },
                Some(j) => {
                    proof {
                        lemma_events_map_contains(active@, mmsi);
                    }
                    if gap < thr as i128 {
                        proof {
                            lemma_events_map_remove(active@, j as int);
                        }
                        active.remove(j);
                    }
                },
            }
            i = i + 1;
        }
        assert(vessels@.take(i as int) =~= vessels@);
        proof {
            use_type_invariant(&*self);
            lemma_sweep_ids(m0, n0, vessels@, now as int, thr as int);
        }
        *self = DarkZoneDetector { threshold_ns: thr, active, next_id: next };
        proof {
            self.lemma_wf_events();
        }
        true
    }

    /// Sweeps the vessel map at the current time (see `sweep_at`).
    pub fn sweep(&mut self, vessels: &Vec<(u32, VesselState)>) -> (done: bool)
        ensures
            exists|now: i64| #[trigger] swept(*old(self), *final(self), vessels@, now as int, done),
            final(self).threshold() == old(self).threshold(),
            events_well_formed(final(self).events(), final(self).next_event_id() as int),
            distinct_ids(final(self).events()),
    {
        let now = now_ns();
        self.sweep_at(vessels, now)
    }

    /// The open events, one per dark vessel.
    pub fn active_events(&self) -> (v: Vec<DarkEvent>)
        ensures
            events_map(v@) == self.events(),
            distinct_vessels(v@),
            events_well_formed(self.events(), self.next_event_id() as int),
            distinct_ids(self.events()),
    {
        proof {
            use_type_invariant(self);
            self.lemma_wf_events();
        }
        self.copy_events()
    }

    /// The open event of vessel `mmsi`, if it is dark.
    pub fn vessel_event(&self, mmsi: u32) -> (r: Option<DarkEvent>)
        ensures
            r == (if self.events().contains_key(mmsi) {
                Some(self.events()[mmsi])
            } else {
                None
            }),
    {
        proof {
            use_type_invariant(self);
            lemma_events_map_contains(self.active@, mmsi);
        }
        match find_event(&self.active, mmsi) {
            Some(j) => Some(self.active[j]),
            None => None,
        }
    }
}

/// `after` is `before` swept over `vessels` at time `now`: when the event
/// numbers did not run out (`done`), its events and next number are those of
/// `sweep_model`; otherwise it is unchanged.
pub open spec fn swept(
    before: DarkZoneDetector,
    after: DarkZoneDetector,
    vessels: Seq<(u32, VesselState)>,
    now: int,
    done: bool,
) -> bool {
    let r = sweep_model(
        before.events(),
        before.next_event_id() as int,
        vessels,
        now,
        before.threshold() as int,
    );
    &&& done == (r.1 <= u64::MAX)
    &&& done ==> after.events() == r.0 && after.next_event_id() == r.1
    &&& !done ==> after.events() == before.events() && after.next_event_id()
        == before.next_event_id()
}

/// Position of the event of vessel `mmsi` in `active`, if there is one.
fn find_event(active: &Vec<DarkEvent>, mmsi: u32) -> (r: Option<usize>)
    ensures
        r matches Some(j) ==> j < active@.len() && active@[j as int].mmsi == mmsi,
        r is None ==> forall|i: int| 0 <= i < active@.len() ==> #[trigger] active@[i].mmsi != mmsi,
{
    let mut i: usize = 0;
    while i < active.len()
        invariant
            i <= active@.len(),
            forall|k: int| 0 <= k < i ==> #[trigger] active@[k].mmsi != mmsi,
        decreases active@.len() - i,
    {
        if active[i].mmsi == mmsi {
            return Some(i);
        }
        i = i + 1;
    }
    None
}

proof fn lemma_sweep_next_mono(
    m: Map<u32, DarkEvent>,
    next: int,
    obs: Seq<(u32, VesselState)>,
    k: int,
    now: int,
    thr: int,
)
    requires
        0 <= k <= obs.len(),
    ensures
        sweep_model(m, next, obs, now, thr).1 >= sweep_model(m, next, obs.take(k), now, thr).1,
    decreases obs.len(),
{
    if k < obs.len() {
        lemma_sweep_next_mono(m, next, obs.drop_last(), k, now, thr);
        assert(obs.drop_last().take(k) =~= obs.take(k));
    } else {
        assert(obs.take(k) =~= obs);
    }
}


/// The state last reported for vessel `k` in `obs`, if it appears.
pub open spec fn last_state(obs: Seq<(u32, VesselState)>, k: u32) -> Option<VesselState>
    decreases obs.len(),
{
    if obs.len() == 0 {
        None
    } else if obs.last().0 == k {
        Some(obs.last().1)
    } else {
        last_state(obs.drop_last(), k)
    }
}

/// No vessel appears twice in `obs` (as in a map keyed by vessel).
pub open spec fn distinct_keys(obs: Seq<(u32, VesselState)>) -> bool {
    forall|i: int, j: int|
        0 <= i < obs.len() && 0 <= j < obs.len() && i != j ==> #[trigger] obs[i].0 != #[trigger] obs[j].0
}

/// After a sweep, a vessel of the sweep has an open event exactly when its
/// silence reaches the threshold; a vessel outside the sweep keeps what it
/// had.
pub proof fn law_sweep_dark_iff_silent(
    m: Map<u32, DarkEvent>,
    next: int,
    obs: Seq<(u32, VesselState)>,
    now: int,
    thr: int,
    k: u32,
)
    ensures
        ({
            let r = sweep_model(m, next, obs, now, thr);
            match last_state(obs, k) {
                Some(st) => r.0.contains_key(k) <==> now - st.last_seen_ns >= thr,
                None => r.0.contains_key(k) == m.contains_key(k) && (m.contains_key(k) ==> r.0[k]
                    == m[k]),
            }
        }),
    decreases obs.len(),
{
    if obs.len() > 0 {
        law_sweep_dark_iff_silent(m, next, obs.drop_last(), now, thr, k);
    }
}

/// With each vessel swept at most once, an event that is open before and
/// after a sweep is the same event.
pub proof fn law_sweep_keeps_open_events(
    m: Map<u32, DarkEvent>,
    next: int,
    obs: Seq<(u32, VesselState)>,
    now: int,
    thr: int,
    k: u32,
)
    requires
        distinct_keys(obs),
    ensures
        ({
            let r = sweep_model(m, next, obs, now, thr);
            m.contains_key(k) && r.0.contains_key(k) ==> r.0[k] == m[k]
        }),
    decreases obs.len(),
{
    if obs.len() > 0 {
        let init = obs.drop_last();
        assert(distinct_keys(init)) by {
            assert forall|i: int, j: int|
                0 <= i < init.len() && 0 <= j < init.len() && i != j implies #[trigger] init[i].0
                != #[trigger] init[j].0 by {
                assert(init[i] == obs[i]);
                assert(init[j] == obs[j]);
            }
        }
        if obs.last().0 == k {
            assert(last_state(init, k) is None) by {
                lemma_last_state_absent(init, k, obs);
            }
            law_sweep_dark_iff_silent(m, next, init, now, thr, k);
        } else {
            law_sweep_keeps_open_events(m, next, init, now, thr, k);
        }
    }
}

proof fn lemma_last_state_absent(init: Seq<(u32, VesselState)>, k: u32, obs: Seq<(u32, VesselState)>)
    requires
        distinct_keys(obs),
        obs.len() > 0,
        init == obs.drop_last(),
        obs.last().0 == k,
    ensures
        last_state(init, k) is None,
    decreases init.len(),
{
    if init.len() > 0 {
        assert(init.last().0 != k) by {
            assert(obs[init.len() - 1].0 != obs[obs.len() - 1].0);
        }
        let obs2 = init.drop_last().push(obs.last());
        assert(obs2.drop_last() =~= init.drop_last());
        assert(distinct_keys(obs2)) by {
            assert forall|i: int, j: int|
                0 <= i < obs2.len() && 0 <= j < obs2.len() && i != j implies #[trigger] obs2[i].0
                != #[trigger] obs2[j].0 by {
                let i2 = if i == obs2.len() - 1 { obs.len() - 1 } else { i };
                let j2 = if j == obs2.len() - 1 { obs.len() - 1 } else { j };
                assert(obs2[i] == obs[i2]);
                assert(obs2[j] == obs[j2]);
            }
        }
        lemma_last_state_absent(init.drop_last(), k, obs2);
    }
}

/// No two events of `m` share a number.
pub open spec fn distinct_ids(m: Map<u32, DarkEvent>) -> bool {
    forall|a: u32, b: u32|
        m.contains_key(a) && m.contains_key(b) && a != b ==> #[trigger] m[a].dark_event_id
            != #[trigger] m[b].dark_event_id
}

/// A sweep from well-formed events with distinct numbers gives well-formed
/// events with distinct numbers, and never lowers the next number.
proof fn lemma_sweep_ids(m: Map<u32, DarkEvent>, next: int, obs: Seq<(u32, VesselState)>, now: int, thr: int)
    requires
        events_well_formed(m, next),
        distinct_ids(m),
        0 <= next,
        sweep_model(m, next, obs, now, thr).1 <= u64::MAX,
    ensures
        ({
            let r = sweep_model(m, next, obs, now, thr);
            &&& r.1 >= next
            &&& events_well_formed(r.0, r.1)
            &&& distinct_ids(r.0)
        }),
    decreases obs.len(),
{
    if obs.len() > 0 {
        let init = obs.drop_last();
        lemma_sweep_next_mono(m, next, obs, obs.len() - 1, now, thr);
        assert(obs.take(obs.len() - 1) =~= init);
        lemma_sweep_ids(m, next, init, now, thr);
        let r1 = sweep_model(m, next, init, now, thr);
        let r = sweep_model(m, next, obs, now, thr);
        let k0 = obs.last().0;
        let st = obs.last().1;
        let gap = now - st.last_seen_ns;
        if !r1.0.contains_key(k0) && gap >= thr {
            assert(r.0 == r1.0.insert(k0, opened_event(r1.1 as u64, k0, st)));
            assert(r.1 == r1.1 + 1);
        } else if r1.0.contains_key(k0) && gap < thr {
            assert(r.0 == r1.0.remove(k0));
        } else {
            assert(r.0 == r1.0);
        }
        assert(distinct_ids(r.0)) by {
            assert forall|a: u32, b: u32|
                r.0.contains_key(a) && r.0.contains_key(b) && a != b implies #[trigger] r.0[a].dark_event_id
                != #[trigger] r.0[b].dark_event_id by {
                if a != k0 {
                    assert(r1.0.contains_key(a));
                    assert(r.0[a] == r1.0[a]);
                }
                if b != k0 {
                    assert(r1.0.contains_key(b));
                    assert(r.0[b] == r1.0[b]);
                }
            }
        }
    }
}

/// Some event of `after` that is not in `before` carries the number `id`.
pub open spec fn opened_with(after: Map<u32, DarkEvent>, before: Map<u32, DarkEvent>, id: int) -> bool {
    exists|k: u32|
        #[trigger] after.contains_key(k) && !before.contains_key(k) && after[k].dark_event_id == id
}

/// A sweep keeps the events well formed and their numbers distinct, never
/// lowers the next number, and, with each vessel swept at most once, every
/// event it opens is numbered from the range it consumed and records the
/// vessel's report, and every number of that range goes to an event it
/// opened: the numbers are handed out consecutively, each once.
pub proof fn law_sweep_numbering(
    m: Map<u32, DarkEvent>,
    next: int,
    obs: Seq<(u32, VesselState)>,
    now: int,
    thr: int,
)
    requires
        events_well_formed(m, next),
        distinct_ids(m),
        distinct_keys(obs),
        0 <= next,
        sweep_model(m, next, obs, now, thr).1 <= u64::MAX,
    ensures
        ({
            let r = sweep_model(m, next, obs, now, thr);
            &&& r.1 >= next
            &&& events_well_formed(r.0, r.1)
            &&& distinct_ids(r.0)
            &&& forall|k: u32|
                #[trigger] r.0.contains_key(k) && !m.contains_key(k) ==> next <= r.0[k].dark_event_id
                    && last_state(obs, k) is Some && r.0[k] == opened_event(
                    r.0[k].dark_event_id,
                    k,
                    last_state(obs, k)->0,
                )
            &&& forall|id: int| next <= id < r.1 ==> #[trigger] opened_with(r.0, m, id)
        }),
    decreases obs.len(),
{
    if obs.len() > 0 {
        let init = obs.drop_last();
        assert(distinct_keys(init)) by {
            assert forall|i: int, j: int|
                0 <= i < init.len() && 0 <= j < init.len() && i != j implies #[trigger] init[i].0
                != #[trigger] init[j].0 by {
                assert(init[i] == obs[i]);
                assert(init[j] == obs[j]);
            }
        }
        let r1 = sweep_model(m, next, init, now, thr);
        let r = sweep_model(m, next, obs, now, thr);
        let k0 = obs.last().0;
        let st = obs.last().1;
        assert(r1.1 <= r.1);
        law_sweep_numbering(m, next, init, now, thr);
        lemma_last_state_absent(init, k0, obs);
        let gap = now - st.last_seen_ns;
        if !r1.0.contains_key(k0) && gap >= thr {
            assert(r.0 == r1.0.insert(k0, opened_event(r1.1 as u64, k0, st)));
            assert(r.1 == r1.1 + 1);
        } else if r1.0.contains_key(k0) && gap < thr {
            assert(r.0 == r1.0.remove(k0));
            assert(r.1 == r1.1);
        } else {
            assert(r.0 == r1.0);
            assert(r.1 == r1.1);
            if r1.0.contains_key(k0) {
                assert(m.contains_key(k0));
            }
        }
        assert forall|k: u32| #[trigger] r.0.contains_key(k) && !m.contains_key(k) implies next
            <= r.0[k].dark_event_id && last_state(obs, k) is Some && r.0[k] == opened_event(
            r.0[k].dark_event_id,
            k,
            last_state(obs, k)->0,
        ) by {
            if k != k0 {
                assert(r1.0.contains_key(k));
                assert(r.0[k] == r1.0[k]);
            }
        }
        law_sweep_dark_iff_silent(m, next, init, now, thr, k0);
        assert forall|id: int| next <= id < r.1 implies #[trigger] opened_with(r.0, m, id) by {
            if id < r1.1 {
                assert(opened_with(r1.0, m, id));
                let k = choose|k: u32|
                    #[trigger] r1.0.contains_key(k) && !m.contains_key(k) && r1.0[k].dark_event_id == id;
                assert(k != k0);
                assert(r.0.contains_key(k) && r.0[k] == r1.0[k]);
                assert(r.0.contains_key(k) && !m.contains_key(k) && r.0[k].dark_event_id == id);
            } else {
                assert(r.0.contains_key(k0) && !m.contains_key(k0) && r.0[k0].dark_event_id == id);
            }
        }
        assert(distinct_ids(r.0)) by {
            assert forall|a: u32, b: u32|
                r.0.contains_key(a) && r.0.contains_key(b) && a != b implies #[trigger] r.0[a].dark_event_id
                != #[trigger] r.0[b].dark_event_id by {
                if a != k0 {
                    assert(r1.0.contains_key(a));
                    assert(r.0[a] == r1.0[a]);
                }
                if b != k0 {
                    assert(r1.0.contains_key(b));
                    assert(r.0[b] == r1.0[b]);
                }
            }
        }
    }
}

/// A vessel without an event that a sweep finds silent for at least the
/// threshold gets an event, numbered from the range that sweep consumed,
/// that records its last report (gap start = time last seen), ongoing and
/// without an end; a later sweep that finds it heard within the threshold
/// closes that event.
pub proof fn law_event_opens_then_closes(
    m: Map<u32, DarkEvent>,
    next: int,
    obs1: Seq<(u32, VesselState)>,
    now1: int,
    obs2: Seq<(u32, VesselState)>,
    now2: int,
    thr: int,
    k: u32,
)
    requires
        events_well_formed(m, next),
        distinct_ids(m),
        0 <= next,
        distinct_keys(obs1),
        !m.contains_key(k),
        last_state(obs1, k) is Some,
        now1 - last_state(obs1, k)->0.last_seen_ns >= thr,
        sweep_model(m, next, obs1, now1, thr).1 <= u64::MAX,
        last_state(obs2, k) is Some,
        now2 - last_state(obs2, k)->0.last_seen_ns < thr,
    ensures
        ({
            let r1 = sweep_model(m, next, obs1, now1, thr);
            let s = last_state(obs1, k)->0;
            &&& r1.0.contains_key(k)
            &&& r1.0[k] == opened_event(r1.0[k].dark_event_id, k, s)
            &&& r1.0[k].gap_start_ns == s.last_seen_ns
            &&& r1.0[k].is_ongoing && r1.0[k].gap_end_ns is None
            &&& next <= r1.0[k].dark_event_id < r1.1
            &&& !sweep_model(r1.0, r1.1, obs2, now2, thr).0.contains_key(k)
        }),
{
    let r1 = sweep_model(m, next, obs1, now1, thr);
    law_sweep_dark_iff_silent(m, next, obs1, now1, thr, k);
    law_sweep_numbering(m, next, obs1, now1, thr);
    law_sweep_dark_iff_silent(r1.0, r1.1, obs2, now2, thr, k);
}

/// Successive sweeps over the batches `batches`, the `i`-th at time
/// `nows[i]`, from events `m` and next number `next`.
pub open spec fn sweeps_model(
    m: Map<u32, DarkEvent>,
    next: int,
    batches: Seq<Seq<(u32, VesselState)>>,
    nows: Seq<int>,
    thr: int,
) -> (Map<u32, DarkEvent>, int)
    decreases batches.len(),
{
    if batches.len() == 0 {
        (m, next)
    } else {
        let r = sweeps_model(m, next, batches.drop_last(), nows, thr);
        sweep_model(r.0, r.1, batches.last(), nows[batches.len() - 1], thr)
    }
}

proof fn lemma_sweeps_prefix(
    m: Map<u32, DarkEvent>,
    next: int,
    batches: Seq<Seq<(u32, VesselState)>>,
    nows: Seq<int>,
    thr: int,
    p: int,
)
    requires
        0 <= p <= batches.len(),
    ensures
        sweeps_model(m, next, batches.take(p), nows, thr).1 <= sweeps_model(m, next, batches, nows, thr).1,
    decreases batches.len(),
{
    if p < batches.len() {
        let init = batches.drop_last();
        assert(init.take(p) =~= batches.take(p));
        lemma_sweeps_prefix(m, next, init, nows, thr, p);
        let r = sweeps_model(m, next, init, nows, thr);
        let last = batches.last();
        lemma_sweep_next_mono(r.0, r.1, last, 0, nows[batches.len() - 1], thr);
        assert(last.take(0).len() == 0);
    } else {
        assert(batches.take(p) =~= batches);
    }
}

proof fn lemma_sweeps_wf(
    m: Map<u32, DarkEvent>,
    next: int,
    batches: Seq<Seq<(u32, VesselState)>>,
    nows: Seq<int>,
    thr: int,
)
    requires
        events_well_formed(m, next),
        distinct_ids(m),
        0 <= next,
        sweeps_model(m, next, batches, nows, thr).1 <= u64::MAX,
    ensures
        ({
            let r = sweeps_model(m, next, batches, nows, thr);
            &&& next <= r.1
            &&& events_well_formed(r.0, r.1)
            &&& distinct_ids(r.0)
        }),
    decreases batches.len(),
{
    if batches.len() > 0 {
        let init = batches.drop_last();
        lemma_sweeps_prefix(m, next, batches, nows, thr, batches.len() - 1);
        assert(batches.take(batches.len() - 1) =~= init);
        lemma_sweeps_wf(m, next, init, nows, thr);
        let r = sweeps_model(m, next, init, nows, thr);
        lemma_sweep_ids(r.0, r.1, batches.last(), nows[batches.len() - 1], thr);
    }
}

/// Over any series of sweeps of a new detector (no events, next number 1),
/// each batch a map of vessels, that never runs out of numbers: after every
/// sweep the events are well formed (one per vessel, ongoing, without an
/// end) with distinct numbers; sweep `j` hands out exactly the numbers from
/// the next number before it up to the one after it, each to one event it
/// opened, so the numbers ever issued are 1, 2, 3, ... in order of opening,
/// each once.
pub proof fn law_sweeps_from_new(
    batches: Seq<Seq<(u32, VesselState)>>,
    nows: Seq<int>,
    thr: int,
    j: int,
)
    requires
        nows.len() == batches.len(),
        forall|i: int| 0 <= i < batches.len() ==> distinct_keys(#[trigger] batches[i]),
        sweeps_model(Map::empty(), 1, batches, nows, thr).1 <= u64::MAX,
        0 <= j < batches.len(),
    ensures
        ({
            let a = sweeps_model(Map::empty(), 1, batches.take(j), nows, thr);
            let b = sweeps_model(Map::empty(), 1, batches.take(j + 1), nows, thr);
            &&& 1 <= a.1 <= b.1
            &&& events_well_formed(b.0, b.1)
            &&& distinct_ids(b.0)
            &&& forall|k: u32|
                #[trigger] b.0.contains_key(k) && !a.0.contains_key(k) ==> a.1 <= b.0[k].dark_event_id
                    < b.1
            &&& forall|id: int| a.1 <= id < b.1 ==> #[trigger] opened_with(b.0, a.0, id)
        }),
{
    let e = Map::<u32, DarkEvent>::empty();
    assert(events_well_formed(e, 1));
    assert(distinct_ids(e));
    let pa = batches.take(j);
    let pb = batches.take(j + 1);
    assert(pb.drop_last() =~= pa);
    assert(pb.last() == batches[j]);
    lemma_sweeps_prefix(e, 1, batches, nows, thr, j);
    lemma_sweeps_prefix(e, 1, batches, nows, thr, j + 1);
    lemma_sweeps_wf(e, 1, pa, nows, thr);
    let a = sweeps_model(e, 1, pa, nows, thr);
    let b = sweeps_model(e, 1, pb, nows, thr);
    assert(b == sweep_model(a.0, a.1, batches[j], nows[j], thr));
    law_sweep_numbering(a.0, a.1, batches[j], nows[j], thr);
}

} // verus!
