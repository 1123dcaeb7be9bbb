use vstd::prelude::*;
use crate::clock::{date_label, date_label_of, new_session_id, valid_time};
use crate::session::{closed_at, AppCategory, AppSession};
use crate::state::{
    all_open, category_for, category_of, contains_name, has_name, has_session, names_distinct,
    AppState,
};

verus! {

/// An executable is observed by a tick when it is registered and present in
/// the process snapshot.
pub open spec fn observed(reg: Seq<String>, snap: Seq<String>, n: Seq<char>) -> bool {
    has_name(reg, n) && has_name(snap, n)
}

/// The session one tick longer; the count stops at the largest `u64`.
pub open spec fn bumped(s: AppSession) -> AppSession {
    AppSession {
        total_seconds: if s.total_seconds < u64::MAX { (s.total_seconds + 1) as u64 } else { s.total_seconds },
        ..s
    }
}

/// The open sessions that a tick keeps, in their order, each one tick longer.
pub open spec fn survivors(old: Seq<AppSession>, reg: Seq<String>, snap: Seq<String>) -> Seq<AppSession>
    decreases old.len(),
{
    if old.len() == 0 {
        Seq::empty()
    } else {
        let rest = survivors(old.drop_last(), reg, snap);
        if observed(reg, snap, old.last().exe_name@) {
            rest.push(bumped(old.last()))
        } else {
            rest
        }
    }
}

/// The open sessions that a tick closes at `now`, in their order.
pub open spec fn closed_by_tick(old: Seq<AppSession>, reg: Seq<String>, snap: Seq<String>, now: i64) -> Seq<AppSession>
    decreases old.len(),
{
    if old.len() == 0 {
        Seq::empty()
    } else {
        let rest = closed_by_tick(old.drop_last(), reg, snap, now);
        if observed(reg, snap, old.last().exe_name@) {
            rest
        } else {
            rest.push(closed_at(old.last(), now))
        }
    }
}

/// A session opened by a tick at `now`: for an observed executable that had
/// no open session, already one tick long.
pub open spec fn fresh_session(
    s: AppSession,
    old: Seq<AppSession>,
    reg: Seq<String>,
    snap: Seq<String>,
    cats: Seq<AppCategory>,
    now: i64,
) -> bool {
    &&& observed(reg, snap, s.exe_name@)
    &&& !has_session(old, s.exe_name@)
    &&& s.category@ == category_for(cats, s.exe_name@)
    &&& s.start_time == now
    &&& s.end_time is None
    &&& s.total_seconds == 1
    &&& s.date@ == date_label_of(now as int)
}

/// What one reconciliation makes of the open sessions `old`: `closed` are
/// those of executables no longer observed, closed at `now`; `new` begins
/// with the survivors, one tick longer, followed by the sessions it opened;
/// and every observed executable has a session in `new`.
pub open spec fn reconciled(
    old: Seq<AppSession>,
    reg: Seq<String>,
    snap: Seq<String>,
    cats: Seq<AppCategory>,
    now: i64,
    new: Seq<AppSession>,
    closed: Seq<AppSession>,
) -> bool {
    let kept = survivors(old, reg, snap);
    &&& closed == closed_by_tick(old, reg, snap, now)
    &&& new.len() >= kept.len()
    &&& new.subrange(0, kept.len() as int) == kept
    &&& forall|k: int| kept.len() <= k < new.len() ==> fresh_session(#[trigger] new[k], old, reg, snap, cats, now)
    &&& forall|n: Seq<char>| observed(reg, snap, n) ==> has_session(new, n)
}

/// Whether some session of `v` belongs to `name`.
pub fn has_session_named(v: &Vec<AppSession>, name: &String) -> (r: bool)
    ensures
        r == has_session(v@, name@),
{
    let mut i: usize = 0;
    while i < v.len()
        invariant
            i <= v@.len(),
            forall|k: int| 0 <= k < i ==> v@[k].exe_name@ != name@,
        decreases v@.len() - i,
    {
        if v[i].exe_name == *name {
            return true;
        }
        i = i + 1;
    }
    false
}

/// Splits the open sessions into those that stay open, one tick longer, and
/// those that close at `now`.
fn carry_over(old: &Vec<AppSession>, reg: &Vec<String>, snap: &Vec<String>, now: i64)
    -> (r: (Vec<AppSession>, Vec<AppSession>))
    requires
        names_distinct(old@),
        all_open(old@),
    ensures
        r.0@ == survivors(old@, reg@, snap@),
        r.1@ == closed_by_tick(old@, reg@, snap@, now),
        names_distinct(r.0@),
        all_open(r.0@),
        forall|k: int| 0 <= k < r.0@.len() ==> has_session(old@, (#[trigger] r.0@[k]).exe_name@),
        forall|k: int|
            0 <= k < old@.len() && observed(reg@, snap@, (#[trigger] old@[k]).exe_name@)
                ==> has_session(r.0@, old@[k].exe_name@),
{
    let mut kept: Vec<AppSession> = Vec::new();
    let mut closed: Vec<AppSession> = Vec::new();
    let mut i: usize = 0;
    while i < old.len()
        invariant
            i <= old@.len(),
            names_distinct(old@),
            all_open(old@),
            kept@ == survivors(old@.subrange(0, i as int), reg@, snap@),
            closed@ == closed_by_tick(old@.subrange(0, i as int), reg@, snap@, now),
            names_distinct(kept@),
            all_open(kept@),
            forall|k: int| 0 <= k < kept@.len() ==>
                exists|j: int| 0 <= j < i && #[trigger] old@[j].exe_name@ == (#[trigger] kept@[k]).exe_name@,
            forall|k: int|
                0 <= k < i && observed(reg@, snap@, (#[trigger] old@[k]).exe_name@)
                    ==> has_session(kept@, old@[k].exe_name@),
        decreases old@.len() - i,
    {
        let ghost pre = old@.subrange(0, i as int);
        let ghost next = old@.subrange(0, i + 1);
        assert(next.drop_last() =~= pre);
        assert(next.last() == old@[i as int]);
        let s = old[i].copied();
        let seen = contains_name(reg, &s.exe_name) && contains_name(snap, &s.exe_name);
        if seen {
            let ghost before = kept@;
            let total = s.total_seconds.saturating_add(1);
            let b = AppSession { total_seconds: total, ..s };
            assert(b == bumped(old@[i as int]));
            kept.push(b);
            proof {
                assert forall|k: int| 0 <= k < kept@.len() implies exists|j: int|
                    0 <= j < i + 1 && #[trigger] old@[j].exe_name@ == (#[trigger] kept@[k]).exe_name@ by {
                    if k < before.len() {
                        assert(kept@[k] == before[k]);
                    } else {
                        assert(old@[i as int].exe_name@ == kept@[k].exe_name@);
                    }
                }
                assert forall|k1: int, k2: int|
                    0 <= k1 < kept@.len() && 0 <= k2 < kept@.len() && k1 != k2
                        implies #[trigger] kept@[k1].exe_name@ != #[trigger] kept@[k2].exe_name@ by {
                    if k1 < before.len() && k2 < before.len() {
                        assert(kept@[k1] == before[k1] && kept@[k2] == before[k2]);
                    } else if k1 < before.len() {
                        assert(kept@[k1] == before[k1]);
                        let j = choose|j: int| 0 <= j < i && #[trigger] old@[j].exe_name@ == before[k1].exe_name@;
                        assert(old@[j].exe_name@ != old@[i as int].exe_name@);
                    } else if k2 < before.len() {
                        assert(kept@[k2] == before[k2]);
                        let j = choose|j: int| 0 <= j < i && #[trigger] old@[j].exe_name@ == before[k2].exe_name@;
                        assert(old@[j].exe_name@ != old@[i as int].exe_name@);
                    }
                }
                assert forall|k: int|
                    0 <= k < i + 1 && observed(reg@, snap@, (#[trigger] old@[k]).exe_name@)
                        implies has_session(kept@, old@[k].exe_name@) by {
                    if k < i {
                        let w = choose|w: int| 0 <= w < before.len() && #[trigger] before[w].exe_name@ == old@[k].exe_name@;
                        assert(kept@[w] == before[w]);
                    } else {
                        assert(kept@[before.len() as int].exe_name@ == old@[k].exe_name@);
                    }
                }
            }
        } else {
            let c = AppSession { end_time: Some(now), ..s };
            closed.push(c);
        }
        i = i + 1;
    }
    assert(old@.subrange(0, old@.len() as int) =~= old@);
    (kept, closed)
}

/// Opens a session, one tick long, for each observed executable that has
/// none among `kept`.
fn open_new(
    kept: Vec<AppSession>,
    old: &Vec<AppSession>,
    reg: &Vec<String>,
    snap: &Vec<String>,
    cats: &Vec<AppCategory>,
    now: i64,
) -> (r: Vec<AppSession>)
    requires
        valid_time(now),
        names_distinct(kept@),
        all_open(kept@),
        forall|k: int|
            0 <= k < old@.len() && observed(reg@, snap@, (#[trigger] old@[k]).exe_name@)
                ==> has_session(kept@, old@[k].exe_name@),
    ensures
        r@.len() >= kept@.len(),
        r@.subrange(0, kept@.len() as int) == kept@,
        names_distinct(r@),
        all_open(r@),
        forall|k: int| kept@.len() <= k < r@.len() ==>
            fresh_session(#[trigger] r@[k], old@, reg@, snap@, cats@, now),
        forall|n: Seq<char>| observed(reg@, snap@, n) ==> has_session(r@, n),
{
    let today = date_label(now);
    let mut out = kept;
    let ghost base = out@;
    let mut j: usize = 0;
    while j < snap.len()
        invariant
            j <= snap@.len(),
            valid_time(now),
            today@ == date_label_of(now as int),
            out@.len() >= base.len(),
            out@.subrange(0, base.len() as int) == base,
            names_distinct(out@),
            all_open(out@),
            forall|k: int|
                0 <= k < old@.len() && observed(reg@, snap@, (#[trigger] old@[k]).exe_name@)
                    ==> has_session(base, old@[k].exe_name@),
            forall|k: int| base.len() <= k < out@.len() ==>
                fresh_session(#[trigger] out@[k], old@, reg@, snap@, cats@, now),
            forall|k: int| 0 <= k < j && observed(reg@, snap@, (#[trigger] snap@[k])@)
                ==> has_session(out@, snap@[k]@),
        decreases snap@.len() - j,
    {
        let name = &snap[j];
        let ghost before = out@;
        if contains_name(reg, name) && !has_session_named(&out, name) {
            proof {
                assert(has_name(snap@, name@)) by { assert(snap@[j as int]@ == name@); }
                if has_session(old@, name@) {
                    let k = choose|k: int| 0 <= k < old@.len() && #[trigger] old@[k].exe_name@ == name@;
                    let w = choose|w: int| 0 <= w < base.len() && #[trigger] base[w].exe_name@ == old@[k].exe_name@;
                    assert(out@.subrange(0, base.len() as int)[w] == out@[w]);
                    assert(false);
                }
            }
            let s = AppSession {
                id: new_session_id(),
                exe_name: name.clone(),
                category: category_of(cats, name),
                start_time: now,
                end_time: None,
                total_seconds: 1,
                date: today.clone(),
            };
            out.push(s);
            proof {
                assert(out@.subrange(0, base.len() as int) =~= before.subrange(0, base.len() as int));
                assert forall|k1: int, k2: int|
                    0 <= k1 < out@.len() && 0 <= k2 < out@.len() && k1 != k2
                        implies #[trigger] out@[k1].exe_name@ != #[trigger] out@[k2].exe_name@ by {
                    if k1 < before.len() && k2 < before.len() {
                        assert(out@[k1] == before[k1] && out@[k2] == before[k2]);
                    } else if k1 < before.len() {
                        assert(out@[k1] == before[k1]);
                    } else if k2 < before.len() {
                        assert(out@[k2] == before[k2]);
                    }
                }
                assert forall|k: int| base.len() <= k < out@.len() implies
                    fresh_session(#[trigger] out@[k], old@, reg@, snap@, cats@, now) by {
                    if k < before.len() {
                        assert(out@[k] == before[k]);
                    }
                }
            }
        }
        proof {
            assert forall|k: int| 0 <= k < j + 1 && observed(reg@, snap@, (#[trigger] snap@[k])@)
                implies has_session(out@, snap@[k]@) by {
                if k < j {
                    let w = choose|w: int| 0 <= w < before.len() && #[trigger] before[w].exe_name@ == snap@[k]@;
                    assert(out@[w] == before[w]);
                } else {
                    assert(has_name(reg@, name@));
                    if !has_session(before, name@) {
                        assert(out@[before.len() as int].exe_name@ == name@);
                    } else {
                        let w = choose|w: int| 0 <= w < before.len() && #[trigger] before[w].exe_name@ == name@;
                        assert(out@[w] == before[w]);
                    }
                }
            }
        }
        j = j + 1;
    }
    proof {
        assert forall|n: Seq<char>| observed(reg@, snap@, n) implies has_session(out@, n) by {
            let k = choose|k: int| 0 <= k < snap@.len() && #[trigger] snap@[k]@ == n;
        }
    }
    out
}

/// Every session of `v` closed at `now`, in order.
pub open spec fn close_all(v: Seq<AppSession>, now: i64) -> Seq<AppSession> {
    v.map_values(|s: AppSession| closed_at(s, now))
}

/// What one tick of the tracking loop leaves to do: the sessions it closed,
/// to be persisted, and whether the loop ends.
pub struct TickOutcome {
    pub closed: Vec<AppSession>,
    pub stop: bool,
}

/// What one round of auto-detection decided.
#[derive(Debug, Clone, Copy, PartialEq, Eq)]
pub enum Detection {
    /// Nothing to do this round; keep polling.
    Wait,
    /// A registered application is running and tracking was switched on;
    /// the caller starts the tracking loop where `spawn_loop` holds, and
    /// auto-detection ends.
    Started { spawn_loop: bool },
}

impl AppState {
    /// One reconciliation of the open sessions against a process snapshot
    /// taken at `now`. Sessions of observed executables grow by one tick,
    /// the others close at `now` and are returned, and each observed
    /// executable without a session gets a new one, one tick long.
    pub fn reconcile(&mut self, snapshot: &Vec<String>, now: i64) -> (closed: Vec<AppSession>)
        requires
            old(self).wf(),
            valid_time(now),
        ensures
            final(self).wf(),
            reconciled(old(self).active_sessions@, old(self).registered_apps@, snapshot@,
                old(self).app_categories@, now, final(self).active_sessions@, closed@),
            final(self).registered_apps == old(self).registered_apps,
            final(self).app_categories == old(self).app_categories,
            final(self).tracked_apps == old(self).tracked_apps,
            final(self).tracking_active == old(self).tracking_active,
            final(self).tracking_thread_running == old(self).tracking_thread_running,
    {
        let (kept, closed) = carry_over(&self.active_sessions, &self.registered_apps, snapshot, now);
        let active = open_new(kept, &self.active_sessions, &self.registered_apps, snapshot, &self.app_categories, now);
        self.active_sessions = active;
        closed
    }

    /// Closes every open session at `now` and returns them, in order, for
    /// persisting; no session stays open.
    pub fn save_all_active_sessions(&mut self, now: i64) -> (closed: Vec<AppSession>)
        ensures
            closed@ == close_all(old(self).active_sessions@, now),
            final(self).active_sessions@.len() == 0,
            final(self).wf(),
            final(self).registered_apps == old(self).registered_apps,
            final(self).app_categories == old(self).app_categories,
            final(self).tracked_apps == old(self).tracked_apps,
            final(self).tracking_active == old(self).tracking_active,
            final(self).tracking_thread_running == old(self).tracking_thread_running,
    {
        let mut closed: Vec<AppSession> = Vec::new();
        let mut i: usize = 0;
        while i < self.active_sessions.len()
            invariant
                i <= self.active_sessions@.len(),
                self.active_sessions == old(self).active_sessions,
                closed@ == close_all(self.active_sessions@.subrange(0, i as int), now),
            decreases self.active_sessions@.len() - i,
        {
            let s = self.active_sessions[i].copied();
            closed.push(AppSession { end_time: Some(now), ..s });
            i = i + 1;
            assert(closed@ =~= close_all(self.active_sessions@.subrange(0, i as int), now));
        }
        assert(self.active_sessions@.subrange(0, i as int) =~= self.active_sessions@);
        self.active_sessions = Vec::new();
        closed
    }

    /// One tick of the tracking loop. Where tracking was switched off, every
    /// open session closes at `now`, the loop guard is released and the loop
    /// ends; otherwise the sessions are reconciled against the snapshot.
    pub fn tracking_tick(&mut self, snapshot: &Vec<String>, now: i64) -> (r: TickOutcome)
        requires
            old(self).wf(),
            valid_time(now),
        ensures
            final(self).wf(),
            r.stop == !old(self).tracking_active,
            r.stop ==> r.closed@ == close_all(old(self).active_sessions@, now),
            r.stop ==> final(self).active_sessions@.len() == 0,
            r.stop ==> !final(self).tracking_thread_running,
            !r.stop ==> reconciled(old(self).active_sessions@, old(self).registered_apps@, snapshot@,
                old(self).app_categories@, now, final(self).active_sessions@, r.closed@),
            !r.stop ==> final(self).tracking_thread_running == old(self).tracking_thread_running,
            final(self).registered_apps == old(self).registered_apps,
            final(self).app_categories == old(self).app_categories,
            final(self).tracked_apps == old(self).tracked_apps,
            final(self).tracking_active == old(self).tracking_active,
    {
        if !self.tracking_active {
            let closed = self.save_all_active_sessions(now);
            self.release_loop_guard();
            TickOutcome { closed, stop: true }
        } else {
            let closed = self.reconcile(snapshot, now);
            TickOutcome { closed, stop: false }
        }
    }

    /// One round of auto-detection on a process snapshot. It waits while
    /// tracking is on or nothing is registered or running; otherwise it
    /// switches tracking on and takes the loop guard, if free.
    pub fn auto_detection_step(&mut self, snapshot: &Vec<String>) -> (r: Detection)
        ensures
            ({
                let found = exists|n: Seq<char>| observed(old(self).registered_apps@, snapshot@, n);
                if !old(self).tracking_active && found {
                    &&& r == (Detection::Started { spawn_loop: !old(self).tracking_thread_running })
                    &&& final(self).tracking_active
                    &&& final(self).tracking_thread_running
                } else {
                    &&& r == Detection::Wait
                    &&& final(self).tracking_active == old(self).tracking_active
                    &&& final(self).tracking_thread_running == old(self).tracking_thread_running
                }
            }),
            final(self).active_sessions == old(self).active_sessions,
            final(self).registered_apps == old(self).registered_apps,
            final(self).app_categories == old(self).app_categories,
            final(self).tracked_apps == old(self).tracked_apps,
    {
        if self.tracking_active || self.registered_apps.len() == 0 {
            proof {
                if self.registered_apps@.len() == 0 {
                    assert forall|n: Seq<char>| !observed(self.registered_apps@, snapshot@, n) by {}
                }
            }
            return Detection::Wait;
        }
        let mut i: usize = 0;
        while i < snapshot.len()
            invariant
                i <= snapshot@.len(),
                *self == *old(self),
                !self.tracking_active,
                forall|k: int| 0 <= k < i ==> !has_name(self.registered_apps@, (#[trigger] snapshot@[k])@),
            decreases snapshot@.len() - i,
        {
            if contains_name(&self.registered_apps, &snapshot[i]) {
                proof {
                    let n = snapshot@[i as int]@;
                    assert(has_name(snapshot@, n));
                    assert(observed(self.registered_apps@, snapshot@, n));
                }
                self.set_tracking_active(true);
                let spawn_loop = self.try_acquire_loop_guard();
                return Detection::Started { spawn_loop };
            }
            i = i + 1;
        }
        proof {
            assert forall|n: Seq<char>| !observed(self.registered_apps@, snapshot@, n) by {
                if has_name(snapshot@, n) {
                    let k = choose|k: int| 0 <= k < snapshot@.len() && #[trigger] snapshot@[k]@ == n;
                }
            }
        }
        Detection::Wait
    }
}

/// Takes the loop guard for a new tracking loop: true where the caller is to
/// start the loop, false where one already runs.
pub fn start_process_tracking_loop(state: &mut AppState) -> (spawn: bool)
    ensures
        spawn == !old(state).tracking_thread_running,
        final(state).tracking_thread_running,
        final(state).tracking_active == old(state).tracking_active,
        final(state).registered_apps == old(state).registered_apps,
        final(state).active_sessions == old(state).active_sessions,
        final(state).app_categories == old(state).app_categories,
        final(state).tracked_apps == old(state).tracked_apps,
{
    state.try_acquire_loop_guard()
}

} // verus!
