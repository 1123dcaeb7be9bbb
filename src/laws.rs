use vstd::prelude::*;
use crate::session::{AppCategory, AppSession};
use crate::state::{has_session, names_distinct};
use crate::tracker::{bumped, closed_by_tick, fresh_session, observed, reconciled, survivors};

verus! {

/// The seconds counted by the open session of `n` in `v`; 0 where it has none.
pub open spec fn session_total(v: Seq<AppSession>, n: Seq<char>) -> int
    decreases v.len(),
{
    if v.len() == 0 {
        0
    } else if v.last().exe_name@ == n {
        v.last().total_seconds as int
    } else {
        session_total(v.drop_last(), n)
    }
}

/// A count one tick further, stopping at the largest `u64`.
pub open spec fn next_count(t: int) -> int {
    if t < u64::MAX { t + 1 } else { t }
}

proof fn lemma_total_absent(v: Seq<AppSession>, n: Seq<char>)
    requires
        !has_session(v, n),
    ensures
        session_total(v, n) == 0,
    decreases v.len(),
{
    if v.len() > 0 {
        assert(v.last() == v[v.len() - 1]);
        assert forall|i: int| 0 <= i < v.drop_last().len() implies #[trigger] v.drop_last()[i].exe_name@ != n by {
            assert(v.drop_last()[i] == v[i]);
        }
        lemma_total_absent(v.drop_last(), n);
    }
}

proof fn lemma_total_at(v: Seq<AppSession>, n: Seq<char>, k: int)
    requires
        names_distinct(v),
        0 <= k < v.len(),
        v[k].exe_name@ == n,
    ensures
        session_total(v, n) == v[k].total_seconds,
    decreases v.len(),
{
    if k < v.len() - 1 {
        assert(v.last() == v[v.len() - 1]);
        let d = v.drop_last();
        assert(d[k] == v[k]);
        assert forall|i: int, j: int| 0 <= i < d.len() && 0 <= j < d.len() && i != j
            implies #[trigger] d[i].exe_name@ != #[trigger] d[j].exe_name@ by {
            assert(d[i] == v[i] && d[j] == v[j]);
        }
        lemma_total_at(d, n, k);
    }
}

proof fn lemma_survivors(old: Seq<AppSession>, reg: Seq<String>, snap: Seq<String>, n: Seq<char>)
    requires
        names_distinct(old),
    ensures
        has_session(survivors(old, reg, snap), n) ==> observed(reg, snap, n) && has_session(old, n),
        observed(reg, snap, n) && has_session(old, n) ==> has_session(survivors(old, reg, snap), n)
            && session_total(survivors(old, reg, snap), n) == next_count(session_total(old, n)),
    decreases old.len(),
{
    if old.len() > 0 {
        let d = old.drop_last();
        let l = old.last();
        assert(l == old[old.len() - 1]);
        assert forall|i: int, j: int| 0 <= i < d.len() && 0 <= j < d.len() && i != j
            implies #[trigger] d[i].exe_name@ != #[trigger] d[j].exe_name@ by {
            assert(d[i] == old[i] && d[j] == old[j]);
        }
        lemma_survivors(d, reg, snap, n);
        let rest = survivors(d, reg, snap);
        let sv = survivors(old, reg, snap);
        if has_session(d, n) {
            let w = choose|w: int| 0 <= w < d.len() && #[trigger] d[w].exe_name@ == n;
            assert(old[w] == d[w]);
        }
        if has_session(sv, n) {
            let w = choose|w: int| 0 <= w < sv.len() && #[trigger] sv[w].exe_name@ == n;
            if observed(reg, snap, l.exe_name@) && w == rest.len() {
                assert(sv[w] == bumped(l));
            } else {
                assert(sv[w] == rest[w]);
            }
        }
        if observed(reg, snap, n) && has_session(old, n) {
            if l.exe_name@ == n {
                assert(sv == rest.push(bumped(l)));
                assert(sv.last() == bumped(l));
                assert(sv[sv.len() - 1].exe_name@ == n);
            } else {
                let w = choose|w: int| 0 <= w < old.len() && #[trigger] old[w].exe_name@ == n;
                assert(w < d.len());
                assert(d[w] == old[w]);
                let v = choose|v: int| 0 <= v < rest.len() && #[trigger] rest[v].exe_name@ == n;
                if observed(reg, snap, l.exe_name@) {
                    assert(sv == rest.push(bumped(l)));
                    assert(sv.drop_last() =~= rest);
                    assert(sv[v] == rest[v]);
                } else {
                    assert(sv == rest);
                }
            }
        }
    }
}

/// A tick keeps the count of every observed executable: where it had an
/// open session, that session is one tick longer; where it had none, its new
/// session counts this one tick. An executable that is not observed has no
/// open session after the tick; one that is observed has exactly one (the
/// sessions stay distinct by name), and one without a session before gets a
/// fresh one, opened at this tick.
pub proof fn lemma_tick_counts(
    old: Seq<AppSession>,
    reg: Seq<String>,
    snap: Seq<String>,
    cats: Seq<AppCategory>,
    now: i64,
    new: Seq<AppSession>,
    closed: Seq<AppSession>,
    n: Seq<char>,
)
    requires
        names_distinct(old),
        names_distinct(new),
        reconciled(old, reg, snap, cats, now, new, closed),
    ensures
        observed(reg, snap, n) ==> has_session(new, n) && session_total(new, n) == next_count(session_total(old, n)),
        observed(reg, snap, n) && !has_session(old, n) ==>
            exists|k: int| 0 <= k < new.len() && #[trigger] new[k].exe_name@ == n
                && fresh_session(new[k], old, reg, snap, cats, now),
        !observed(reg, snap, n) ==> !has_session(new, n),
{
    let kept = survivors(old, reg, snap);
    lemma_survivors(old, reg, snap, n);
    assert forall|k: int| 0 <= k < kept.len() implies #[trigger] new[k] == kept[k] by {
        assert(new.subrange(0, kept.len() as int)[k] == new[k]);
    }
    if has_session(new, n) {
        let k = choose|k: int| 0 <= k < new.len() && #[trigger] new[k].exe_name@ == n;
        lemma_total_at(new, n, k);
        if k < kept.len() {
            assert(new[k] == kept[k]);
            assert(has_session(kept, n));
            assert forall|i: int, j: int| 0 <= i < kept.len() && 0 <= j < kept.len() && i != j
                implies #[trigger] kept[i].exe_name@ != #[trigger] kept[j].exe_name@ by {
                assert(new[i] == kept[i] && new[j] == kept[j]);
            }
            lemma_total_at(kept, n, k);
        } else {
            assert(fresh_session(new[k], old, reg, snap, cats, now));
            lemma_total_absent(old, n);
        }
    }
}

/// A session closed by a tick is gone from the open sessions: nothing of it
/// stays open, and should its executable be observed again at the next tick,
/// the session it gets there is a fresh one, opened at that tick.
pub proof fn lemma_closed_is_not_resumed(
    old: Seq<AppSession>,
    reg: Seq<String>,
    snap: Seq<String>,
    cats: Seq<AppCategory>,
    now: i64,
    mid: Seq<AppSession>,
    closed: Seq<AppSession>,
    reg2: Seq<String>,
    snap2: Seq<String>,
    cats2: Seq<AppCategory>,
    now2: i64,
    new: Seq<AppSession>,
    closed2: Seq<AppSession>,
    n: Seq<char>,
)
    requires
        names_distinct(old),
        names_distinct(mid),
        names_distinct(new),
        reconciled(old, reg, snap, cats, now, mid, closed),
        reconciled(mid, reg2, snap2, cats2, now2, new, closed2),
        has_session(closed, n),
    ensures
        !has_session(mid, n),
        observed(reg2, snap2, n) ==>
            exists|k: int| 0 <= k < new.len() && #[trigger] new[k].exe_name@ == n
                && fresh_session(new[k], mid, reg2, snap2, cats2, now2),
{
    lemma_closed_unobserved(old, reg, snap, now, n);
    lemma_tick_counts(old, reg, snap, cats, now, mid, closed, n);
    lemma_tick_counts(mid, reg2, snap2, cats2, now2, new, closed2, n);
}

proof fn lemma_closed_unobserved(old: Seq<AppSession>, reg: Seq<String>, snap: Seq<String>, now: i64, n: Seq<char>)
    requires
        has_session(closed_by_tick(old, reg, snap, now), n),
    ensures
        !observed(reg, snap, n),
    decreases old.len(),
{
    let c = closed_by_tick(old, reg, snap, now);
    let rest = closed_by_tick(old.drop_last(), reg, snap, now);
    let w = choose|w: int| 0 <= w < c.len() && #[trigger] c[w].exe_name@ == n;
    if !observed(reg, snap, old.last().exe_name@) && w == rest.len() {
    } else {
        assert(c[w] == rest[w]);
        lemma_closed_unobserved(old.drop_last(), reg, snap, now, n);
    }
}

/// The run of ticks, up to the last, in which an executable was observed
/// without a break, stopping at the largest `u64`.
pub open spec fn streak(seen: Seq<bool>) -> int
    decreases seen.len(),
{
    if seen.len() == 0 {
        0
    } else if seen.last() {
        next_count(streak(seen.drop_last()))
    } else {
        0
    }
}

/// Over any run of ticks from no open sessions, the open session of an
/// executable counts exactly the ticks, up to the last, in which it was
/// observed without a break; where the last tick did not observe it, it has
/// no open session.
pub proof fn lemma_total_is_streak(
    states: Seq<Seq<AppSession>>,
    regs: Seq<Seq<String>>,
    snaps: Seq<Seq<String>>,
    cats: Seq<Seq<AppCategory>>,
    nows: Seq<i64>,
    closeds: Seq<Seq<AppSession>>,
    n: Seq<char>,
)
    requires
        states.len() == snaps.len() + 1,
        regs.len() == snaps.len(),
        cats.len() == snaps.len(),
        nows.len() == snaps.len(),
        closeds.len() == snaps.len(),
        states[0].len() == 0,
        forall|t: int| 0 <= t < states.len() ==> names_distinct(#[trigger] states[t]),
        forall|t: int| #![trigger snaps[t]] 0 <= t < snaps.len() ==>
            reconciled(states[t], regs[t], snaps[t], cats[t], nows[t], states[t + 1], closeds[t]),
    ensures
        session_total(states.last(), n) == streak(Seq::new(snaps.len(), |t: int| observed(regs[t], snaps[t], n))),
        !observed(regs.last(), snaps.last(), n) && snaps.len() > 0 ==> !has_session(states.last(), n),
    decreases snaps.len(),
{
    let m = snaps.len() as int;
    let seen = Seq::new(snaps.len(), |t: int| observed(regs[t], snaps[t], n));
    if m == 0 {
        assert(states.last() == states[0]);
    } else {
        let t = m - 1;
        let ps = states.drop_last();
        lemma_total_is_streak(ps, regs.drop_last(), snaps.drop_last(), cats.drop_last(), nows.drop_last(),
            closeds.drop_last(), n);
        let pseen = Seq::new(snaps.drop_last().len(), |t: int| observed(regs.drop_last()[t], snaps.drop_last()[t], n));
        assert(pseen =~= seen.drop_last());
        assert(ps.last() == states[t]);
        assert(states.last() == states[t + 1]);
        assert(reconciled(states[t], regs[t], snaps[t], cats[t], nows[t], states[t + 1], closeds[t]));
        lemma_tick_counts(states[t], regs[t], snaps[t], cats[t], nows[t], states[t + 1], closeds[t], n);
        assert(seen.last() == observed(regs[t], snaps[t], n));
        if !observed(regs[t], snaps[t], n) {
            lemma_total_absent(states[t + 1], n);
        }
    }
}

} // verus!
