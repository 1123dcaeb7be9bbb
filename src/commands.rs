use vstd::prelude::*;
use crate::session::AppSession;
use crate::session::closed_at;
use crate::state::{copy_sessions, AppState};
use crate::tracker::close_all;

verus! {

/// The state once `start_tracking` has run: the registered applications
/// replaced, tracking on, and the loop guard held.
pub open spec fn after_start(s: AppState, apps: Vec<String>) -> AppState {
    AppState { registered_apps: apps, tracking_active: true, tracking_thread_running: true, ..s }
}

/// The state once `stop_tracking` has run: tracking off, all else as it was.
pub open spec fn after_stop(s: AppState) -> AppState {
    AppState { tracking_active: false, ..s }
}

/// Whether a start on state `s` is to start a tracking loop: only where no
/// loop holds the guard.
pub open spec fn start_spawns(s: AppState) -> bool {
    !s.tracking_thread_running
}

/// Replaces the registered applications, switches tracking on and takes the
/// loop guard. True where the caller is to start the tracking loop; false
/// where one already runs, so that two starts make one loop.
pub fn start_tracking(state: &mut AppState, registered_apps: Vec<String>) -> (spawn: bool)
    ensures
        spawn == start_spawns(*old(state)),
        *final(state) == after_start(*old(state), registered_apps),
{
    state.set_registered_apps(registered_apps);
    state.set_tracking_active(true);
    state.try_acquire_loop_guard()
}

/// Switches tracking off; the loop closes every open session on its next tick.
pub fn stop_tracking(state: &mut AppState)
    ensures
        *final(state) == after_stop(*old(state)),
{
    state.set_tracking_active(false);
}

/// The accumulated totals per executable, in seconds.
pub fn get_tracked_totals(state: &AppState) -> (r: Vec<(String, u64)>)
    ensures
        r@.len() == state.tracked_apps@.len(),
        forall|k: int| 0 <= k < r@.len() ==>
            (#[trigger] r@[k]).0@ == state.tracked_apps@[k].0@ && r@[k].1 == state.tracked_apps@[k].1,
{
    let mut out: Vec<(String, u64)> = Vec::new();
    let mut i: usize = 0;
    while i < state.tracked_apps.len()
        invariant
            i <= state.tracked_apps@.len(),
            out@.len() == i,
            forall|k: int| 0 <= k < i ==>
                (#[trigger] out@[k]).0@ == state.tracked_apps@[k].0@ && out@[k].1 == state.tracked_apps@[k].1,
        decreases state.tracked_apps@.len() - i,
    {
        let entry = &state.tracked_apps[i];
        out.push((entry.0.clone(), entry.1));
        i = i + 1;
    }
    out
}

/// The open sessions, for reporting.
pub fn get_active_sessions(state: &AppState) -> (r: Vec<AppSession>)
    ensures
        r@ == state.active_sessions@,
{
    copy_sessions(&state.active_sessions)
}

/// Two starts in a row, with no stop between them, start one tracking loop:
/// whatever the first start found, the second finds the guard taken.
pub proof fn lemma_second_start_spawns_nothing(s: AppState, first: Vec<String>, second: Vec<String>)
    ensures
        !start_spawns(after_start(s, first)),
        after_start(after_start(s, first), second).tracking_thread_running,
{
}

/// Stopping while sessions are open: the next tick of the loop ends it, and
/// closes and hands over for persisting exactly the open sessions, each with
/// its end time set to that tick and otherwise unchanged.
pub proof fn lemma_stop_flushes_all(s: AppState, now: i64)
    ensures
        !after_stop(s).tracking_active,
        after_stop(s).active_sessions == s.active_sessions,
        close_all(after_stop(s).active_sessions@, now).len() == s.active_sessions@.len(),
        forall|k: int| 0 <= k < s.active_sessions@.len() ==>
            (#[trigger] close_all(s.active_sessions@, now)[k]) == closed_at(s.active_sessions@[k], now)
                && close_all(s.active_sessions@, now)[k].end_time == Some(now),
{
}

} // verus!
