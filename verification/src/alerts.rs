//! The screen-reader alert queue: bells and desktop notifications waiting to
//! be announced. Each alert gets the next sequence number; the queue keeps
//! the newest `ALERTS_MAX_LEN` alerts, alerts leave it once `ALERT_TTL_SECS`
//! have passed, and one can be dismissed by its sequence number.

use vstd::prelude::*;
use crate::named_blocks::unix_now;

verus! {

/// The most alerts the queue holds; the oldest leave first.
pub const ALERTS_MAX_LEN: usize = 16;

/// How long an alert stays in the queue, in seconds.
pub const ALERT_TTL_SECS: i64 = 10;

/// What raised an alert.
#[derive(Clone, Copy, Debug, PartialEq, Eq, Structural)]
pub enum AlertKind {
    Bell,
    Notification,
}

/// One queued alert.
#[derive(Debug)]
pub struct AlertEntry {
    pub seq: u64,
    pub kind: AlertKind,
    pub pane_id: u32,
    pub title: String,
    pub body: String,
    /// When the alert was raised, in seconds since the Unix epoch.
    pub created_at: i64,
}

/// The queue of alerts, oldest first, and the sequence number of the next one.
#[derive(Debug)]
pub struct AlertQueue {
    pub alerts: Vec<AlertEntry>,
    pub next_seq: u64,
}

/// The newest `ALERTS_MAX_LEN` entries of `s`.
pub open spec fn newest(s: Seq<AlertEntry>) -> Seq<AlertEntry> {
    if s.len() > ALERTS_MAX_LEN {
        s.skip(s.len() - ALERTS_MAX_LEN)
    } else {
        s
    }
}

/// Whether an alert raised at `created_at` has outlived its time at `now`.
pub open spec fn is_expired(created_at: i64, now: i64) -> bool {
    now - created_at >= ALERT_TTL_SECS
}

/// The entries of `s` that have not expired at `now`, in order.
pub open spec fn fresh(s: Seq<AlertEntry>, now: i64) -> Seq<AlertEntry>
    decreases s.len(),
{
    if s.len() == 0 {
        Seq::empty()
    } else {
        let rest = fresh(s.drop_first(), now);
        if is_expired(s[0].created_at, now) {
            rest
        } else {
            seq![s[0]] + rest
        }
    }
}

/// The position of the first entry with sequence number `seq`.
pub open spec fn position_of(s: Seq<AlertEntry>, seq: u64) -> Option<int>
    decreases s.len(),
{
    if s.len() == 0 {
        None
    } else if s[0].seq == seq {
        Some(0)
    } else {
        match position_of(s.drop_first(), seq) {
            Some(i) => Some(i + 1),
            None => None,
        }
    }
}

/// The queue never holds more than `ALERTS_MAX_LEN` alerts after an alert
/// is added: what stays is the newest end of the queue, the added alert last.
pub proof fn lemma_newest(s: Seq<AlertEntry>)
    ensures
        newest(s).len() == if s.len() > ALERTS_MAX_LEN { ALERTS_MAX_LEN as nat } else { s.len() },
        newest(s) == s.skip(s.len() - newest(s).len()),
        s.len() > 0 ==> newest(s).last() == s.last(),
{
    if s.len() <= ALERTS_MAX_LEN {
        assert(s.skip(0) =~= s);
    }
}

proof fn lemma_position_of(s: Seq<AlertEntry>, seq: u64)
    ensures
        position_of(s, seq) matches Some(i) ==> 0 <= i < s.len() && s[i].seq == seq && forall|j: int|
            0 <= j < i ==> s[j].seq != seq,
        position_of(s, seq) is None ==> forall|j: int| 0 <= j < s.len() ==> s[j].seq != seq,
    decreases s.len(),
{
    if s.len() > 0 {
        lemma_position_of(s.drop_first(), seq);
        assert forall|j: int| 0 < j < s.len() implies s[j] == s.drop_first()[j - 1] by {}
    }
}

impl AlertQueue {
    /// An empty queue whose first alert gets sequence number 0.
    pub fn new() -> (q: Self)
        ensures
            q.alerts@.len() == 0,
            q.next_seq == 0,
    {
        AlertQueue { alerts: Vec::new(), next_seq: 0 }
    }

    /// Queue an alert raised at `now` and return its sequence number. The
    /// oldest alerts leave when the queue would hold more than
    /// `ALERTS_MAX_LEN`.
    pub fn add_alert_at(&mut self, kind: AlertKind, pane_id: u32, title: String, body: String, now: i64) -> (seq: u64)
        ensures
            seq == old(self).next_seq,
            final(self).next_seq == if old(self).next_seq == u64::MAX { 0 } else { (old(self).next_seq + 1) as u64 },
            final(self).alerts@ == newest(
                old(self).alerts@.push(AlertEntry { seq, kind, pane_id, title, body, created_at: now }),
            ),
    {
        let seq = self.next_seq;
        let ghost pushed = old(self).alerts@.push(AlertEntry { seq, kind, pane_id, title, body, created_at: now });
        self.alerts.push(AlertEntry { seq, kind, pane_id, title, body, created_at: now });
        assert(self.alerts@ == pushed);
        if self.alerts.len() > ALERTS_MAX_LEN {
            let drop = self.alerts.len() - ALERTS_MAX_LEN;
            let mut i: usize = 0;
            while i < drop
                invariant
                    i <= drop,
                    drop == pushed.len() - ALERTS_MAX_LEN,
                    self.alerts@ == pushed.skip(i as int),
                decreases drop - i,
            {
                self.alerts.remove(0);
                assert(pushed.skip(i as int).remove(0) =~= pushed.skip(i + 1));
                i = i + 1;
            }
        }
        self.next_seq = if seq == u64::MAX { 0 } else { seq + 1 };
        seq
    }

    /// Queue an alert raised now (by the system clock) and return its
    /// sequence number.
    pub fn add_alert(&mut self, kind: AlertKind, pane_id: u32, title: String, body: String) -> (seq: u64)
        ensures
            seq == old(self).next_seq,
            final(self).next_seq == if old(self).next_seq == u64::MAX { 0 } else { (old(self).next_seq + 1) as u64 },
            exists|now: i64|
                final(self).alerts@ == newest(
                    old(self).alerts@.push(AlertEntry { seq, kind, pane_id, title, body, created_at: now }),
                ),
    {
        let now = unix_now();
        self.add_alert_at(kind, pane_id, title, body, now)
    }

    /// Drop the alerts that have outlived `ALERT_TTL_SECS` at `now`, keeping
    /// the order of the others; returns how many were dropped.
    pub fn expire_alerts(&mut self, now: i64) -> (removed: usize)
        ensures
            final(self).alerts@ == fresh(old(self).alerts@, now),
            final(self).next_seq == old(self).next_seq,
            removed == old(self).alerts@.len() - final(self).alerts@.len(),
    {
        let ghost orig = self.alerts@;
        let n = self.alerts.len();
        let mut i = n;
        assert(orig.skip(n as int) =~= Seq::<AlertEntry>::empty());
        assert(orig.take(n as int) =~= orig);
        while i > 0
            invariant
                i <= n,
                n == orig.len(),
                self.next_seq == old(self).next_seq,
                self.alerts@ == orig.take(i as int) + fresh(orig.skip(i as int), now),
            decreases i,
        {
            i = i - 1;
            proof {
                assert(orig.skip(i as int).drop_first() =~= orig.skip(i + 1));
                assert(orig.skip(i as int)[0] == orig[i as int]);
                assert(orig.take(i + 1) =~= orig.take(i as int).push(orig[i as int]));
            }
            let created = self.alerts[i].created_at;
            let expired = if now >= i64::MIN + ALERT_TTL_SECS {
                created <= now - ALERT_TTL_SECS
            } else {
                false
            };
            if expired {
                self.alerts.remove(i);
                assert(self.alerts@ =~= orig.take(i as int) + fresh(orig.skip(i as int), now));
            } else {
                assert(self.alerts@ =~= orig.take(i as int) + fresh(orig.skip(i as int), now));
            }
        }
        assert(orig.skip(0) =~= orig);
        assert(self.alerts@ =~= fresh(orig, now));
        proof {
            lemma_fresh_len(orig, now);
        }
        n - self.alerts.len()
    }

    /// Remove the alert with sequence number `seq`; `false`, with nothing
    /// changed, when there is none.
    pub fn dismiss_alert(&mut self, seq: u64) -> (found: bool)
        ensures
            found == position_of(old(self).alerts@, seq) is Some,
            final(self).next_seq == old(self).next_seq,
            match position_of(old(self).alerts@, seq) {
                Some(i) => final(self).alerts@ == old(self).alerts@.remove(i),
                None => final(self).alerts@ == old(self).alerts@,
            },
    {
        proof {
            lemma_position_of(self.alerts@, seq);
        }
        let n = self.alerts.len();
        let mut i: usize = 0;
        while i < n
            invariant
                i <= n,
                n == self.alerts@.len(),
                self.alerts@ == old(self).alerts@,
                self.next_seq == old(self).next_seq,
                forall|j: int| 0 <= j < i ==> self.alerts@[j].seq != seq,
            decreases n - i,
        {
            if self.alerts[i].seq == seq {
                proof {
                    lemma_position_of(self.alerts@, seq);
                    match position_of(self.alerts@, seq) {
                        Some(p) => {
                            assert(p == i);
                        },
                        None => {},
                    }
                }
                self.alerts.remove(i);
                return true;
            }
            i = i + 1;
        }
        proof {
            lemma_position_of(self.alerts@, seq);
        }
        false
    }
}

proof fn lemma_fresh_len(s: Seq<AlertEntry>, now: i64)
    ensures
        fresh(s, now).len() <= s.len(),
    decreases s.len(),
{
    if s.len() > 0 {
        lemma_fresh_len(s.drop_first(), now);
    }
}

} // verus!
