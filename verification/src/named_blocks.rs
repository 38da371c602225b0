//! In-memory store of user-assigned command-block names.
//!
//! Keyed by block id; each entry remembers the trimmed name and the Unix time
//! of the last interaction. The store is soft-capped: once an insertion takes
//! it past [`MAX_NAMED_BLOCKS`] entries, the oldest entries (by last use) are
//! shed, the excess plus a tenth of the cap. Reading and writing the JSON file
//! on disk is the application's job.

use std::collections::HashMap;
use vstd::prelude::*;
use crate::command_blocks::BlockId;
use vstd::std_specs::iter::IteratorSpec;
use crate::text::{trim, chars_of, trim_bounds, string_from_range};

verus! {

broadcast use vstd::std_specs::hash::group_hash_axioms;

/// Soft cap on the number of remembered names.
pub const MAX_NAMED_BLOCKS: usize = 10_000;

/// Current on-disk schema version.
pub const SCHEMA_VERSION: u32 = 1;

/// The schema version assumed when the file does not carry one.
pub fn default_schema_version() -> (v: u32)
    ensures
        v == SCHEMA_VERSION,
{
    SCHEMA_VERSION
}

/// A named block: its trimmed, non-empty name and the Unix time (seconds) of
/// the last user interaction with it.
#[derive(Clone, Debug, Default, PartialEq, Eq)]
pub struct NamedBlockEntry {
    pub name: String,
    pub last_used_unix: i64,
}

/// The name and timestamp of an entry.
pub open spec fn entry_view(e: NamedBlockEntry) -> (Seq<char>, i64) {
    (e.name@, e.last_used_unix)
}

impl NamedBlockEntry {
    /// A field-by-field copy.
    pub fn duplicate(&self) -> (r: NamedBlockEntry)
        ensures
            entry_view(r) == entry_view(*self),
    {
        NamedBlockEntry { name: self.name.clone(), last_used_unix: self.last_used_unix }
    }
}

/// Seconds since the Unix epoch, or 0 when the clock reads before it.
#[verifier::external_body]
pub fn unix_now() -> i64 {
    std::time::SystemTime::now().duration_since(std::time::UNIX_EPOCH).map(|d| d.as_secs() as i64).unwrap_or(0)
}

/// In-memory store of block names.
#[derive(Clone, Debug, Default)]
pub struct NamedBlockStore {
    names: HashMap<BlockId, NamedBlockEntry>,
}

/// `after` is `before` with its `to_drop` oldest entries shed (all of them if
/// fewer): a sub-map of the right size in which no kept entry was used before
/// a shed one. Which of several equally old entries goes is left open.
pub open spec fn sheds_oldest(
    before: Map<BlockId, (Seq<char>, i64)>,
    after: Map<BlockId, (Seq<char>, i64)>,
    to_drop: nat,
) -> bool {
    &&& after.dom().subset_of(before.dom())
    &&& forall|k: BlockId| #[trigger] after.contains_key(k) ==> after[k] == before[k]
    &&& after.dom().len() == if to_drop >= before.dom().len() {
        0
    } else {
        (before.dom().len() - to_drop) as nat
    }
    &&& forall|gone: BlockId, kept: BlockId|
        #![trigger before.contains_key(gone), after.contains_key(kept)]
        before.contains_key(gone) && !after.contains_key(gone) && after.contains_key(kept)
            ==> before[gone].1 <= after[kept].1
}

/// How many entries the cap sheds from a store of `len` entries.
pub open spec fn shed_count(len: nat) -> nat {
    ((if len > MAX_NAMED_BLOCKS { len - MAX_NAMED_BLOCKS } else { 0 }) + MAX_NAMED_BLOCKS / 10) as nat
}

/// Storing `entry` under `id`, then applying the cap.
pub open spec fn stored_with_cap(
    before: Map<BlockId, (Seq<char>, i64)>,
    after: Map<BlockId, (Seq<char>, i64)>,
    id: BlockId,
    entry: (Seq<char>, i64),
) -> bool {
    let ins = before.insert(id, entry);
    if ins.dom().len() > MAX_NAMED_BLOCKS {
        sheds_oldest(ins, after, shed_count(ins.dom().len()))
    } else {
        after == ins
    }
}

impl View for NamedBlockStore {
    type V = Map<BlockId, (Seq<char>, i64)>;

    closed spec fn view(&self) -> Map<BlockId, (Seq<char>, i64)> {
        self.names@.map_values(|e: NamedBlockEntry| entry_view(e))
    }
}

impl NamedBlockStore {
    proof fn lemma_view(&self)
        ensures
            self@.dom() == self.names@.dom(),
            forall|k: BlockId| #[trigger] self@.contains_key(k) ==> self@[k] == entry_view(self.names@[k]),
    {
        assert(self@.dom() =~= self.names@.dom());
    }

    /// An empty store (no disk read).
    pub fn new() -> (s: Self)
        ensures
            s@ == Map::<BlockId, (Seq<char>, i64)>::empty(),
    {
        let s = NamedBlockStore { names: HashMap::new() };
        assert(s@ =~= Map::<BlockId, (Seq<char>, i64)>::empty());
        s
    }

    /// A store holding the entries of `names` (as read from disk).
    pub fn from_map(names: HashMap<BlockId, NamedBlockEntry>) -> (s: Self)
        ensures
            s@ == names@.map_values(|e: NamedBlockEntry| entry_view(e)),
    {
        NamedBlockStore { names }
    }

    /// The underlying map, for persisting.
    pub fn as_map(&self) -> (m: &HashMap<BlockId, NamedBlockEntry>)
        ensures
            m@.map_values(|e: NamedBlockEntry| entry_view(e)) == self@,
    {
        &self.names
    }

    /// The name assigned to block `id`, if any.
    pub fn get(&self, id: BlockId) -> (r: Option<&str>)
        ensures
            match r {
                Some(s) => self@.contains_key(id) && s@ == self@[id].0,
                None => !self@.contains_key(id),
            },
    {
        match self.names.get(&id) {
            Some(e) => Some(e.name.as_str()),
            None => None,
        }
    }

    /// All `(id, entry)` pairs, in unspecified order, each id once.
    pub fn iter(&self) -> (r: Vec<(BlockId, NamedBlockEntry)>)
        ensures
            r@.len() == self@.dom().len(),
            forall|i: int, j: int| 0 <= i < j < r@.len() ==> r@[i].0 != r@[j].0,
            forall|i: int|
                0 <= i < r@.len() ==> #[trigger] self@.contains_key(r@[i].0) && self@[r@[i].0]
                    == entry_view(r@[i].1),
            forall|k: BlockId| #[trigger]
                self@.contains_key(k) ==> exists|i: int| 0 <= i < r@.len() && r@[i].0 == k,
    {
        let mut r: Vec<(BlockId, NamedBlockEntry)> = Vec::new();
        let ghost m = self.names@;
        for (k, v) in it: self.names.iter()
            invariant
                it.seq() == vstd::std_specs::hash::spec_hash_map_iter(&self.names).remaining(),
                r@.len() == it.index(),
                forall|i: int| 0 <= i < r@.len() ==> (r@[i].0, entry_view(r@[i].1)) == (*it.seq()[i].0, entry_view(*it.seq()[i].1)),
        {
            r.push((*k, v.duplicate()));
        }
        proof {
            self.lemma_view();
            let s = vstd::std_specs::hash::spec_hash_map_iter(&self.names).remaining();
            assert forall|i: int, j: int| 0 <= i < j < r@.len() implies r@[i].0 != r@[j].0 by {
                assert(s.no_duplicates());
                if r@[i].0 == r@[j].0 {
                    assert(m.contains_key(*s[i].0) && m[*s[i].0] == *s[i].1);
                    assert(m.contains_key(*s[j].0) && m[*s[j].0] == *s[j].1);
                    assert(s[i] == s[j]);
                }
            }
            assert forall|k: BlockId| #[trigger] self@.contains_key(k) implies exists|i: int|
                0 <= i < r@.len() && r@[i].0 == k by {
                assert(s.contains((&k, &m[k])));
                let i = choose|i: int| 0 <= i < s.len() && s[i] == (&k, &m[k]);
                assert(r@[i].0 == k);
            }
        }
        r
    }

    /// Number of named blocks.
    pub fn len(&self) -> (n: usize)
        ensures
            n == self@.dom().len(),
    {
        proof {
            self.lemma_view();
        }
        self.names.len()
    }

    /// Whether the store holds no entry.
    pub fn is_empty(&self) -> (b: bool)
        ensures
            b == (self@.dom().len() == 0),
    {
        proof {
            self.lemma_view();
        }
        self.names.is_empty()
    }
}

impl NamedBlockStore {
    /// Remove the name of block `id`; `true` when an entry was removed.
    pub fn remove(&mut self, id: BlockId) -> (r: bool)
        ensures
            final(self)@ == old(self)@.remove(id),
            r == old(self)@.contains_key(id),
    {
        proof {
            self.lemma_view();
        }
        let r = self.names.remove(&id).is_some();
        proof {
            self.lemma_view();
            assert(self@ =~= old(self)@.remove(id));
        }
        r
    }

    /// Refresh the last-use time of block `id` to `now`, keeping its name;
    /// no effect when `id` has no name.
    pub fn touch_at(&mut self, id: BlockId, now: i64)
        ensures
            old(self)@.contains_key(id) ==> final(self)@ == old(self)@.insert(id, (old(self)@[id].0, now)),
            !old(self)@.contains_key(id) ==> final(self)@ == old(self)@,
    {
        proof {
            self.lemma_view();
        }
        let name = match self.names.get(&id) {
            Some(e) => e.name.clone(),
            None => {
                return;
            },
        };
        self.names.insert(id, NamedBlockEntry { name, last_used_unix: now });
        proof {
            self.lemma_view();
            assert(self@ =~= old(self)@.insert(id, (old(self)@[id].0, now)));
        }
    }

    /// Refresh the last-use time of block `id` to the current time, keeping
    /// its name; no effect when `id` has no name.
    pub fn touch(&mut self, id: BlockId)
        ensures
            old(self)@.contains_key(id) ==> exists|now: i64|
                final(self)@ == old(self)@.insert(id, (old(self)@[id].0, now)),
            !old(self)@.contains_key(id) ==> final(self)@ == old(self)@,
    {
        let now = unix_now();
        self.touch_at(id, now);
    }

    /// Assign or rename the name of block `id`, used at `now`. A name that is
    /// empty after trimming removes the entry instead. Returns `true` when
    /// the in-memory state changed (a new entry, a different name, or a
    /// removal).
    pub fn set_at(&mut self, id: BlockId, name: &str, now: i64) -> (r: bool)
        ensures
            trim(name@).len() == 0 ==> final(self)@ == old(self)@.remove(id) && r == old(self)@.contains_key(id),
            trim(name@).len() > 0 ==> stored_with_cap(old(self)@, final(self)@, id, (trim(name@), now)),
            trim(name@).len() > 0 ==> r == (!old(self)@.contains_key(id) || old(self)@[id].0 != trim(name@)),
    {
        let v = chars_of(name);
        let (a, b) = trim_bounds(&v);
        if a == b {
            return self.remove(id);
        }
        let trimmed = string_from_range(&v, a, b);
        proof {
            self.lemma_view();
        }
        let changed = match self.names.get(&id) {
            Some(existing) => !(existing.name == trimmed),
            None => true,
        };
        self.names.insert(id, NamedBlockEntry { name: trimmed, last_used_unix: now });
        proof {
            self.lemma_view();
            assert(self@ =~= old(self)@.insert(id, (trim(name@), now)));
        }
        if self.names.len() > MAX_NAMED_BLOCKS {
            proof {
                self.lemma_view();
            }
            self.evict_oldest();
        }
        proof {
            self.lemma_view();
            assert(stored_with_cap(old(self)@, self@, id, (trim(name@), now)));
        }
        changed
    }

    /// Assign or rename the name of block `id` at the current time (see
    /// `set_at`).
    pub fn set(&mut self, id: BlockId, name: &str) -> (r: bool)
        ensures
            trim(name@).len() == 0 ==> final(self)@ == old(self)@.remove(id) && r == old(self)@.contains_key(id),
            trim(name@).len() > 0 ==> exists|now: i64|
                stored_with_cap(old(self)@, final(self)@, id, (trim(name@), now)),
            trim(name@).len() > 0 ==> r == (!old(self)@.contains_key(id) || old(self)@[id].0 != trim(name@)),
    {
        let now = unix_now();
        self.set_at(id, name, now)
    }

    /// Shed the oldest entries: the excess over the cap plus a tenth of it
    /// (every entry when there are no more than that).
    fn evict_oldest(&mut self)
        ensures
            sheds_oldest(old(self)@, final(self)@, shed_count(old(self)@.dom().len())),
    {
        proof {
            self.lemma_view();
        }
        let target = self.names.len().saturating_sub(MAX_NAMED_BLOCKS);
        let extra = MAX_NAMED_BLOCKS / 10;
        self.shed_oldest(target + extra);
    }

    /// Shed the `to_drop` oldest entries (all of them if there are fewer).
    fn shed_oldest(&mut self, to_drop: usize)
        ensures
            sheds_oldest(old(self)@, final(self)@, to_drop as nat),
    {
        proof {
            self.lemma_view();
        }
        let entries = self.iter();
        let mut ages: Vec<(BlockId, i64)> = Vec::new();
        let n = entries.len();
        for i in 0..n
            invariant
                n == entries@.len(),
                ages@.len() == i,
                forall|j: int| 0 <= j < i ==> #[trigger] ages@[j] == (entries@[j].0, entries@[j].1.last_used_unix),
        {
            ages.push((entries[i].0, entries[i].1.last_used_unix));
        }
        let ghost before = self@;
        proof {
            assert forall|k: BlockId| #[trigger] self@.contains_key(k) implies exists|i: int|
                0 <= i < ages@.len() && ages@[i].0 == k by {
                let i = choose|i: int| 0 <= i < entries@.len() && entries@[i].0 == k;
                assert(ages@[i].0 == k);
            }
            assert forall|i: int| 0 <= i < ages@.len() implies #[trigger] self@.contains_key(ages@[i].0)
                && self@[ages@[i].0].1 == ages@[i].1 by {
                assert(ages@[i] == (entries@[i].0, entries@[i].1.last_used_unix));
                assert(self@.contains_key(entries@[i].0) && self@[entries@[i].0] == entry_view(entries@[i].1));
            }
            assert forall|i: int, j: int| 0 <= i < j < ages@.len() implies ages@[i].0 != ages@[j].0 by {
                assert(ages@[i].0 == entries@[i].0);
                assert(ages@[j].0 == entries@[j].0);
            }
            assert(self@.dom().finite());
        }
        let mut k: usize = 0;
        while k < to_drop && ages.len() > 0
            invariant
                before == old(self)@,
                k <= to_drop,
                before.dom().finite(),
                self@.dom().finite(),
                self@.dom().subset_of(before.dom()),
                forall|x: BlockId| #[trigger] self@.contains_key(x) ==> self@[x] == before[x],
                self@.dom().len() + k == before.dom().len(),
                ages@.len() == self@.dom().len(),
                forall|i: int, j: int| 0 <= i < j < ages@.len() ==> ages@[i].0 != ages@[j].0,
                forall|i: int|
                    0 <= i < ages@.len() ==> #[trigger] self@.contains_key(ages@[i].0) && self@[ages@[i].0].1
                        == ages@[i].1,
                forall|x: BlockId| #[trigger]
                    self@.contains_key(x) ==> exists|i: int| 0 <= i < ages@.len() && ages@[i].0 == x,
                forall|gone: BlockId, kept: BlockId|
                    #![trigger before.contains_key(gone), self@.contains_key(kept)]
                    before.contains_key(gone) && !self@.contains_key(gone) && self@.contains_key(kept)
                        ==> before[gone].1 <= self@[kept].1,
            decreases ages@.len(),
        {
            let mut idx: usize = 0;
            let mut j: usize = 1;
            while j < ages.len()
                invariant
                    ages@.len() > 0,
                    idx < j <= ages@.len(),
                    forall|t: int| 0 <= t < j ==> ages@[idx as int].1 <= #[trigger] ages@[t].1,
                decreases ages@.len() - j,
            {
                if ages[j].1 < ages[idx].1 {
                    idx = j;
                }
                j = j + 1;
            }
            let ghost old_ages = ages@;
            let (victim, ts) = ages.remove(idx);
            let ghost prev = self@;
            proof {
                self.lemma_view();
                assert forall|x: BlockId| #[trigger] prev.contains_key(x) implies ts <= prev[x].1 by {
                    let t = choose|i: int| 0 <= i < old_ages.len() && old_ages[i].0 == x;
                    assert(old_ages[t].1 == prev[x].1);
                }
            }
            self.names.remove(&victim);
            proof {
                self.lemma_view();
                assert(self@ =~= prev.remove(victim));
                assert forall|x: BlockId| #[trigger] self@.contains_key(x) implies exists|i: int|
                    0 <= i < ages@.len() && ages@[i].0 == x by {
                    let t = choose|i: int| 0 <= i < old_ages.len() && old_ages[i].0 == x;
                    assert(t != idx);
                    if t < idx {
                        assert(ages@[t].0 == x);
                    } else {
                        assert(ages@[t - 1].0 == x);
                    }
                }
                assert forall|i: int| 0 <= i < ages@.len() implies #[trigger] self@.contains_key(ages@[i].0) && self@[ages@[i].0].1
                        == ages@[i].1 by {
                    if i < idx {
                        assert(ages@[i] == old_ages[i]);
                        assert(old_ages[i].0 != old_ages[idx as int].0);
                    } else {
                        assert(ages@[i] == old_ages[i + 1]);
                        assert(old_ages[i + 1].0 != old_ages[idx as int].0);
                    }
                }
                assert forall|i: int, j: int| 0 <= i < j < ages@.len() implies ages@[i].0 != ages@[j].0 by {
                    let oi = if i < idx { i } else { i + 1 };
                    let oj = if j < idx { j } else { j + 1 };
                    assert(ages@[i] == old_ages[oi]);
                    assert(ages@[j] == old_ages[oj]);
                }
                assert forall|gone: BlockId, kept: BlockId|
                    #![trigger before.contains_key(gone), self@.contains_key(kept)]
                    before.contains_key(gone) && !self@.contains_key(gone) && self@.contains_key(kept)
                        implies before[gone].1 <= self@[kept].1 by {
                    assert(prev.contains_key(kept));
                    if gone == victim {
                        assert(prev[gone].1 == ts);
                    } else {
                        assert(!prev.contains_key(gone));
                    }
                }
            }
            k = k + 1;
        }
        proof {
            assert(self@.dom().len() == (if to_drop >= before.dom().len() { 0 } else { (before.dom().len() - to_drop) as nat }));
        }
    }
}

impl NamedBlockStore {
    /// A separate store with the same entries.
    pub fn copy(&self) -> (r: Self)
        ensures
            r@ == self@,
    {
        let entries = self.iter();
        assert forall|a: int| 0 <= a < entries@.len() implies #[trigger] self@.contains_key(entries@[a].0)
            && self@[entries@[a].0] == entry_view(entries@[a].1) by {
            assert(self@.contains_key(entries@[a].0));
        }
        let mut out = NamedBlockStore::new();
        let mut i: usize = 0;
        while i < entries.len()
            invariant
                i <= entries@.len(),
                forall|a: int, b: int| 0 <= a < b < entries@.len() ==> entries@[a].0 != entries@[b].0,
                forall|a: int|
                    0 <= a < entries@.len() ==> #[trigger] self@.contains_key(entries@[a].0) && self@[entries@[a].0]
                        == entry_view(entries@[a].1),
                out@ == Map::new(
                    |k: BlockId| exists|a: int| 0 <= a < i && entries@[a].0 == k,
                    |k: BlockId| self@[k],
                ),
            decreases entries@.len() - i,
        {
            proof {
                out.lemma_view();
            }
            let ghost prev = out@;
            let (id, e) = (entries[i].0, entries[i].1.duplicate());
            out.names.insert(id, e);
            proof {
                out.lemma_view();
                assert(self@.contains_key(entries@[i as int].0));
                assert(out@ =~= Map::new(
                    |k: BlockId| exists|a: int| 0 <= a < i + 1 && entries@[a].0 == k,
                    |k: BlockId| self@[k],
                )) by {
                    assert forall|k: BlockId| #[trigger] out@.contains_key(k) <==> exists|a: int|
                        0 <= a < i + 1 && entries@[a].0 == k by {
                        if k == id {
                            assert(entries@[i as int].0 == k);
                        }
                        if exists|a: int| 0 <= a < i + 1 && entries@[a].0 == k {
                            let a = choose|a: int| 0 <= a < i + 1 && entries@[a].0 == k;
                            if a < i {
                                assert(prev.contains_key(k));
                            }
                        }
                    }
                }
            }
            i = i + 1;
        }
        proof {
            assert(out@ =~= self@) by {
                assert forall|k: BlockId| #[trigger] self@.contains_key(k) implies out@.contains_key(k) by {
                    let a = choose|a: int| 0 <= a < entries@.len() && entries@[a].0 == k;
                }
            }
        }
        out
    }

    /// What saving writes: the store with its oldest entries shed down to
    /// `MAX_NAMED_BLOCKS`, so the file does not grow without bound.
    pub fn for_saving(&self) -> (r: Self)
        ensures
            sheds_oldest(
                self@,
                r@,
                if self@.dom().len() > MAX_NAMED_BLOCKS {
                    (self@.dom().len() - MAX_NAMED_BLOCKS) as nat
                } else {
                    0
                },
            ),
    {
        let mut out = self.copy();
        let excess = self.len().saturating_sub(MAX_NAMED_BLOCKS);
        out.shed_oldest(excess);
        out
    }
}

/// A store holds finitely many names.
pub proof fn lemma_store_is_finite(s: &NamedBlockStore)
    ensures
        s@.dom().finite(),
{
    s.lemma_view();
}

/// Reading a name back after writing it: below the cap, storing an entry
/// under `id` makes `id` map to exactly that entry and leaves every other
/// block as it was.
pub proof fn lemma_store_then_get(
    before: Map<BlockId, (Seq<char>, i64)>,
    after: Map<BlockId, (Seq<char>, i64)>,
    id: BlockId,
    entry: (Seq<char>, i64),
)
    requires
        stored_with_cap(before, after, id, entry),
        before.insert(id, entry).dom().len() <= MAX_NAMED_BLOCKS,
    ensures
        after.contains_key(id) && after[id] == entry,
        forall|k: BlockId| k != id ==> (#[trigger] after.contains_key(k) == before.contains_key(k)),
        forall|k: BlockId| k != id && #[trigger] after.contains_key(k) ==> after[k] == before[k],
{
}

/// The cap holds the store in bounds: a store at or below the cap stays at
/// or below it after any write, and a write that takes it past the cap
/// leaves exactly nine tenths of the cap.
pub proof fn lemma_store_respects_cap(
    before: Map<BlockId, (Seq<char>, i64)>,
    after: Map<BlockId, (Seq<char>, i64)>,
    id: BlockId,
    entry: (Seq<char>, i64),
)
    requires
        before.dom().finite(),
        stored_with_cap(before, after, id, entry),
    ensures
        before.insert(id, entry).dom().len() > MAX_NAMED_BLOCKS ==> after.dom().len()
            == MAX_NAMED_BLOCKS - MAX_NAMED_BLOCKS / 10,
        before.dom().len() <= MAX_NAMED_BLOCKS ==> after.dom().len() <= MAX_NAMED_BLOCKS,
{
    let ins = before.insert(id, entry);
    if before.contains_key(id) {
        assert(ins.dom() =~= before.dom());
    } else {
        assert(ins.dom() =~= before.dom().insert(id));
    }
}

} // verus!
