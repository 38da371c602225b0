//! When the time-based transitions of a window started: the active tab
//! switch and the fade-in of each newly added pane. The springs that animate
//! alongside them are floating-point and live with the renderer.

use std::collections::HashMap;
use vstd::prelude::*;
use vstd::std_specs::iter::IteratorSpec;
use super::timed::{Nanos, NANOS_PER_MS, elapsed};

verus! {

broadcast use vstd::std_specs::hash::group_hash_axioms;

/// Start times of the running transitions.
#[derive(Debug, Clone)]
pub struct TransitionTimes {
    tab_switch: Option<(u32, Nanos)>,
    pane_fade_ins: HashMap<u32, Nanos>,
}

/// The fade-ins still running `dur` nanoseconds after they started, at `now`.
pub open spec fn unexpired(fades: Map<u32, Nanos>, now: Nanos, dur: nat) -> Map<u32, Nanos> {
    Map::new(|k: u32| fades.contains_key(k) && elapsed(fades[k], now) <= dur, |k: u32| fades[k])
}

/// Cleaning up twice at the same moment drops nothing more: what survives
/// one cleanup is all still running.
pub proof fn lemma_cleanup_is_idempotent(fades: Map<u32, Nanos>, now: Nanos, dur: nat)
    ensures
        unexpired(unexpired(fades, now, dur), now, dur) == unexpired(fades, now, dur),
{
    assert(unexpired(unexpired(fades, now, dur), now, dur) =~= unexpired(fades, now, dur));
}

impl TransitionTimes {
    /// The pane a tab switch is animating to, and when it started.
    pub closed spec fn tab_switch_spec(&self) -> Option<(u32, Nanos)> {
        self.tab_switch
    }

    /// When each pane's fade-in started.
    pub closed spec fn fade_ins_spec(&self) -> Map<u32, Nanos> {
        self.pane_fade_ins@
    }

    /// No transition running.
    pub fn new() -> (t: Self)
        ensures
            t.tab_switch_spec() is None,
            t.fade_ins_spec() == Map::<u32, Nanos>::empty(),
    {
        TransitionTimes { tab_switch: None, pane_fade_ins: HashMap::new() }
    }

    /// A tab switch to `to_pane` starts at `now`, replacing any other.
    pub fn record_tab_switch(&mut self, to_pane: u32, now: Nanos)
        ensures
            final(self).tab_switch_spec() == Some((to_pane, now)),
            final(self).fade_ins_spec() == old(self).fade_ins_spec(),
    {
        self.tab_switch = Some((to_pane, now));
    }

    /// Pane `pane_id` starts fading in at `now` (restarting it if it was).
    pub fn record_pane_added(&mut self, pane_id: u32, now: Nanos)
        ensures
            final(self).fade_ins_spec() == old(self).fade_ins_spec().insert(pane_id, now),
            final(self).tab_switch_spec() == old(self).tab_switch_spec(),
    {
        self.pane_fade_ins.insert(pane_id, now);
    }

    /// Forget pane `pane_id`: its fade-in, and the tab switch if it was
    /// switching to it.
    pub fn record_pane_removed(&mut self, pane_id: u32)
        ensures
            final(self).fade_ins_spec() == old(self).fade_ins_spec().remove(pane_id),
            final(self).tab_switch_spec() == match old(self).tab_switch_spec() {
                Some((p, t)) => if p == pane_id {
                    None
                } else {
                    Some((p, t))
                },
                None => None,
            },
    {
        self.pane_fade_ins.remove(&pane_id);
        if let Some((p, _)) = self.tab_switch {
            if p == pane_id {
                self.tab_switch = None;
            }
        }
    }

    /// Drop the transitions that have run for longer than `duration_ms` at
    /// `now`; with a zero duration (animations off) drop them all.
    pub fn cleanup_expired(&mut self, now: Nanos, duration_ms: u32)
        ensures
            duration_ms == 0 ==> final(self).tab_switch_spec() is None && final(self).fade_ins_spec()
                == Map::<u32, Nanos>::empty(),
            duration_ms > 0 ==> final(self).fade_ins_spec() == unexpired(
                old(self).fade_ins_spec(),
                now,
                (duration_ms * NANOS_PER_MS) as nat,
            ),
            duration_ms > 0 ==> final(self).tab_switch_spec() == match old(self).tab_switch_spec() {
                Some((p, t)) => if elapsed(t, now) > duration_ms * NANOS_PER_MS {
                    None
                } else {
                    Some((p, t))
                },
                None => None,
            },
    {
        if duration_ms == 0 {
            self.tab_switch = None;
            self.pane_fade_ins = HashMap::new();
            return;
        }
        let dur: u64 = duration_ms as u64 * NANOS_PER_MS;
        if let Some((_, started)) = self.tab_switch {
            let since: u64 = if now >= started {
                now - started
            } else {
                0
            };
            if since > dur {
                self.tab_switch = None;
            }
        }
        let ghost before = self.fade_ins_spec();
        let ghost switch_after = self.tab_switch;
        let entries = self.fade_entries();
        assert forall|x: int|
            0 <= x < entries@.len() implies #[trigger] before.contains_key(entries@[x].0) && before[entries@[x].0]
                == entries@[x].1 by {
            assert(self.fade_ins_spec().contains_key(entries@[x].0));
        }
        assert(forall|k: u32| #[trigger]
            before.contains_key(k) ==> exists|x: int| 0 <= x < entries@.len() && entries@[x].0 == k);
        let expired = expired_keys(&entries, now, dur);
        proof {
            assert forall|x: int|
                0 <= x < expired@.len() implies #[trigger] before.contains_key(expired@[x])
                    && elapsed(before[expired@[x]], now) > dur by {
                assert(expired_in(entries@, expired@[x], now, dur));
                let y = choose|y: int| 0 <= y < entries@.len() && entries@[y].0 == expired@[x] && elapsed(entries@[y].1, now) > dur;
                assert(0 <= y < entries@.len());
                assert(self.fade_ins_spec().contains_key(entries@[y].0));
                assert(before.contains_key(entries@[y].0) && before[entries@[y].0] == entries@[y].1);
            }
        }
        proof {
            assert forall|k: u32| #[trigger] before.contains_key(k) && elapsed(before[k], now) > dur implies expired@.contains(k) by {
                let x = choose|x: int| 0 <= x < entries@.len() && entries@[x].0 == k;
                assert(before.contains_key(entries@[x].0) && before[entries@[x].0] == entries@[x].1);
            }
        }
        let mut i: usize = 0;
        while i < expired.len()
            invariant
                i <= expired@.len(),
                forall|x: int|
                    0 <= x < expired@.len() ==> #[trigger] before.contains_key(expired@[x])
                        && elapsed(before[expired@[x]], now) > dur,
                forall|k: u32| #[trigger] before.contains_key(k) && elapsed(before[k], now) > dur ==> expired@.contains(k),
                self.tab_switch == switch_after,
                self.pane_fade_ins@ == Map::new(
                    |k: u32| before.contains_key(k) && !expired@.take(i as int).contains(k),
                    |k: u32| before[k],
                ),
            decreases expired@.len() - i,
        {
            self.pane_fade_ins.remove(&expired[i]);
            proof {
                assert(self.pane_fade_ins@ =~= Map::new(
                    |k: u32| before.contains_key(k) && !expired@.take(i + 1).contains(k),
                    |k: u32| before[k],
                )) by {
                    let t0 = expired@.take(i as int);
                    let t1 = expired@.take(i + 1);
                    assert(t1 =~= t0.push(expired@[i as int]));
                    assert forall|k: u32| #[trigger] t1.contains(k) <==> (t0.contains(k) || k == expired@[i as int]) by {
                        if t1.contains(k) {
                            let x = choose|x: int| 0 <= x < t1.len() && #[trigger] t1[x] == k;
                            if x < i {
                                assert(t0[x] == k);
                            }
                        }
                        if t0.contains(k) {
                            let x = choose|x: int| 0 <= x < t0.len() && #[trigger] t0[x] == k;
                            assert(t1[x] == k);
                        }
                        if k == expired@[i as int] {
                            assert(t1[i as int] == k);
                        }
                    }
                }
            }
            i = i + 1;
        }
        proof {
            assert(expired@.take(expired@.len() as int) =~= expired@);
            assert forall|k: u32| #[trigger] self.pane_fade_ins@.contains_key(k) <==> unexpired(before, now, dur as nat).contains_key(k) by {
                if before.contains_key(k) && expired@.contains(k) {
                    let x = choose|x: int| 0 <= x < expired@.len() && expired@[x] == k;
                    assert(elapsed(before[expired@[x]], now) > dur);
                }
            }
            assert(self.pane_fade_ins@ =~= unexpired(before, now, dur as nat));
        }
    }

    /// The running fade-ins as `(pane, start)` pairs, in no particular order.
    fn fade_entries(&self) -> (r: Vec<(u32, Nanos)>)
        ensures
            forall|x: int|
                0 <= x < r@.len() ==> #[trigger] self.fade_ins_spec().contains_key(r@[x].0)
                    && self.fade_ins_spec()[r@[x].0] == r@[x].1,
            forall|k: u32| #[trigger]
                self.fade_ins_spec().contains_key(k) ==> exists|x: int| 0 <= x < r@.len() && r@[x].0 == k,
    {
        let ghost m = self.pane_fade_ins@;
        let mut entries: Vec<(u32, Nanos)> = Vec::new();
        for (k, v) in it: self.pane_fade_ins.iter()
            invariant
                it.seq() == vstd::std_specs::hash::spec_hash_map_iter(&self.pane_fade_ins).remaining(),
                entries@.len() == it.index(),
                forall|x: int| 0 <= x < entries@.len() ==> #[trigger] entries@[x] == (*it.seq()[x].0, *it.seq()[x].1),
        {
            entries.push((*k, *v));
        }
        let ghost s = vstd::std_specs::hash::spec_hash_map_iter(&self.pane_fade_ins).remaining();
        proof {
            assert forall|x: int| 0 <= x < entries@.len() implies #[trigger] m.contains_key(entries@[x].0)
                && m[entries@[x].0] == entries@[x].1 by {
                assert(m.contains_key(*s[x].0) && m[*s[x].0] == *s[x].1);
            }
            assert forall|k: u32| #[trigger] m.contains_key(k) implies exists|x: int|
                0 <= x < entries@.len() && entries@[x].0 == k by {
                assert(s.contains((&k, &m[k])));
                let x = choose|x: int| 0 <= x < s.len() && s[x] == (&k, &m[k]);
                assert(entries@[x].0 == k);
            }
        }
        entries
    }

    /// Whether some fade-in has not yet run for `duration_ms` at `now`; never
    /// with a zero duration (animations off).
    pub fn fade_in_running(&self, now: Nanos, duration_ms: u32) -> (r: bool)
        ensures
            r == (duration_ms > 0 && exists|k: u32|
                #[trigger] self.fade_ins_spec().contains_key(k) && elapsed(self.fade_ins_spec()[k], now)
                    < duration_ms * NANOS_PER_MS),
    {
        if duration_ms == 0 {
            return false;
        }
        let dur: u64 = duration_ms as u64 * NANOS_PER_MS;
        let entries = self.fade_entries();
        assert forall|x: int|
            0 <= x < entries@.len() implies #[trigger] self.fade_ins_spec().contains_key(entries@[x].0)
                && self.fade_ins_spec()[entries@[x].0] == entries@[x].1 by {
            assert(self.fade_ins_spec().contains_key(entries@[x].0));
        }
        let mut j: usize = 0;
        while j < entries.len()
            invariant
                j <= entries@.len(),
                dur == duration_ms * NANOS_PER_MS,
                forall|x: int|
                    0 <= x < entries@.len() ==> #[trigger] self.fade_ins_spec().contains_key(entries@[x].0)
                        && self.fade_ins_spec()[entries@[x].0] == entries@[x].1,
                forall|y: int| 0 <= y < j ==> elapsed(#[trigger] entries@[y].1, now) >= dur,
            decreases entries@.len() - j,
        {
            let started = entries[j].1;
            let since: u64 = if now >= started {
                now - started
            } else {
                0
            };
            if since < dur {
                proof {
                    assert(self.fade_ins_spec().contains_key(entries@[j as int].0));
                }
                return true;
            }
            j = j + 1;
        }
        proof {
            assert forall|k: u32| #[trigger] self.fade_ins_spec().contains_key(k) implies elapsed(
                self.fade_ins_spec()[k],
                now,
            ) >= dur by {
                let x = choose|x: int| 0 <= x < entries@.len() && entries@[x].0 == k;
                assert(self.fade_ins_spec().contains_key(entries@[x].0));
                assert(elapsed(entries@[x].1, now) >= dur);
            }
        }
        false
    }

    /// The pane a tab switch is animating to, if one is running.
    pub fn current_tab_switch_target(&self) -> (r: Option<u32>)
        ensures
            r == match self.tab_switch_spec() {
                Some((p, _)) => Some(p),
                None => None::<u32>,
            },
    {
        match self.tab_switch {
            Some((p, _)) => Some(p),
            None => None,
        }
    }

    /// When the running tab switch started, if one is.
    pub fn tab_switch_started(&self) -> (r: Option<Nanos>)
        ensures
            r == match self.tab_switch_spec() {
                Some((_, t)) => Some(t),
                None => None::<Nanos>,
            },
    {
        match self.tab_switch {
            Some((_, t)) => Some(t),
            None => None,
        }
    }

    /// When pane `pane_id` started fading in, if it is.
    pub fn fade_in_started(&self, pane_id: u32) -> (r: Option<Nanos>)
        ensures
            r == if self.fade_ins_spec().contains_key(pane_id) {
                Some(self.fade_ins_spec()[pane_id])
            } else {
                None::<Nanos>
            },
    {
        match self.pane_fade_ins.get(&pane_id) {
            Some(t) => Some(*t),
            None => None,
        }
    }
}

/// Whether some entry for `k` had run for longer than `dur` at `now`.
spec fn expired_in(entries: Seq<(u32, Nanos)>, k: u32, now: Nanos, dur: u64) -> bool {
    exists|y: int| 0 <= y < entries.len() && entries[y].0 == k && elapsed(entries[y].1, now) > dur
}

/// The keys of the entries that had run for longer than `dur` at `now`.
fn expired_keys(entries: &Vec<(u32, Nanos)>, now: Nanos, dur: u64) -> (r: Vec<u32>)
    ensures
        forall|x: int| 0 <= x < r@.len() ==> #[trigger] expired_in(entries@, r@[x], now, dur),
        forall|y: int|
            0 <= y < entries@.len() && elapsed(#[trigger] entries@[y].1, now) > dur ==> r@.contains(entries@[y].0),
{
    let mut r: Vec<u32> = Vec::new();
    let mut j: usize = 0;
    while j < entries.len()
        invariant
            j <= entries@.len(),
            forall|x: int| 0 <= x < r@.len() ==> #[trigger] expired_in(entries@, r@[x], now, dur),
            forall|y: int|
                0 <= y < j && elapsed(#[trigger] entries@[y].1, now) > dur ==> r@.contains(entries@[y].0),
        decreases entries@.len() - j,
    {
        let (k, started) = entries[j];
        let ghost prior = r@;
        let since: u64 = if now >= started {
            now - started
        } else {
            0
        };
        if since > dur {
            r.push(k);
        }
        proof {
            assert forall|x: int| 0 <= x < r@.len() implies #[trigger] expired_in(entries@, r@[x], now, dur) by {
                if x < prior.len() {
                    assert(r@[x] == prior[x]);
                    assert(expired_in(entries@, prior[x], now, dur));
                } else {
                    assert(entries@[j as int].0 == r@[x]);
                }
            }
            assert forall|y: int|
                0 <= y < j + 1 && elapsed(#[trigger] entries@[y].1, now) > dur implies r@.contains(entries@[y].0) by {
                if y < j {
                    let x = choose|x: int| 0 <= x < prior.len() && prior[x] == entries@[y].0;
                    assert(r@[x] == prior[x]);
                } else {
                    assert(r@[r@.len() - 1] == k);
                }
            }
        }
        j = j + 1;
    }
    r
}

} // verus!
