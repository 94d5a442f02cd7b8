//! Advisory locks over the row tier: one holder per (row, field set),
//! released by its holder or lapsing after an idle time.

use vstd::prelude::*;
use crate::ids::now_millis;
use crate::text::{chars_of, str_eq, to_string};

verus! {

/// The group of fields of a component row that a lock covers.
#[derive(Debug, Clone, Copy, PartialEq, Eq, Hash, Structural)]
pub enum FieldSet {
    Symbol,
    Footprint,
    Model3d,
    SharedParams,
    SharedSupplyChain,
    SharedSimulation,
    Lifecycle,
}

/// Why a lock request was refused.
#[derive(Debug, Clone, PartialEq, Eq)]
pub enum LockErrorKind {
    /// Another holder has the lock.
    Held { holder: String },
    /// The requester is not a holder the manager knows for this lock.
    UnknownHolder,
    /// The manager could not do its work.
    Internal,
}

/// A refused lock request.
#[derive(Debug, Clone, PartialEq, Eq)]
pub struct LockError {
    pub kind: LockErrorKind,
}

/// A refusal, as the contracts speak of it.
pub enum LockFailure {
    Held(Seq<char>),
    UnknownHolder,
    Internal,
}

/// A lock error, as the contracts speak of it.
pub open spec fn failure_of(e: LockError) -> LockFailure {
    match e.kind {
        LockErrorKind::Held { holder } => LockFailure::Held(holder@),
        LockErrorKind::UnknownHolder => LockFailure::UnknownHolder,
        LockErrorKind::Internal => LockFailure::Internal,
    }
}

/// What the manager holds: for each (row, field set) its holder and when
/// it last took the lock (milliseconds), and the idle time after which a
/// lock lapses.
#[verifier::ext_equal]
pub struct LockTable {
    pub locks: Map<(u128, FieldSet), (Seq<char>, u64)>,
    pub ttl: u64,
}

/// Whether a lock taken at `touched` is still in force at `now`.
pub open spec fn in_force(touched: u64, ttl: u64, now: u64) -> bool {
    now <= touched + ttl
}

/// The holder whose lock on `key` is in force at `now`, if any.
pub open spec fn live_holder(t: LockTable, key: (u128, FieldSet), now: u64) -> Option<Seq<char>> {
    if t.locks.contains_key(key) && in_force(t.locks[key].1, t.ttl, now) {
        Some(t.locks[key].0)
    } else {
        None
    }
}

/// The answer to `holder` asking for `key` at `now`: refused for an empty
/// holder name, refused while another holder's lock is in force, granted
/// otherwise (a holder may renew its own lock).
pub open spec fn try_lock_result(t: LockTable, key: (u128, FieldSet), holder: Seq<char>, now: u64) -> Result<
    (),
    LockFailure,
> {
    if holder.len() == 0 {
        Err(LockFailure::UnknownHolder)
    } else {
        match live_holder(t, key, now) {
            Some(h) => if h == holder {
                Ok(())
            } else {
                Err(LockFailure::Held(h))
            },
            None => Ok(()),
        }
    }
}

/// The table after `holder` asks for `key` at `now`: a granted request
/// records the holder and the time.
pub open spec fn try_lock_table(t: LockTable, key: (u128, FieldSet), holder: Seq<char>, now: u64) -> LockTable {
    if try_lock_result(t, key, holder, now) is Ok {
        LockTable { locks: t.locks.insert(key, (holder, now)), ..t }
    } else {
        t
    }
}

/// The answer to `holder` releasing `key` at `now`: granted to the holder
/// whose lock is in force, refused with that holder to anyone else, and
/// refused as unknown when no lock is in force.
pub open spec fn release_result(t: LockTable, key: (u128, FieldSet), holder: Seq<char>, now: u64) -> Result<
    (),
    LockFailure,
> {
    match live_holder(t, key, now) {
        Some(h) => if h == holder {
            Ok(())
        } else {
            Err(LockFailure::Held(h))
        },
        None => Err(LockFailure::UnknownHolder),
    }
}

/// The table after a release: a granted release drops the lock.
pub open spec fn release_table(t: LockTable, key: (u128, FieldSet), holder: Seq<char>, now: u64) -> LockTable {
    if release_result(t, key, holder, now) is Ok {
        LockTable { locks: t.locks.remove(key), ..t }
    } else {
        t
    }
}

/// The table after dropping every lock that has lapsed at `now`.
pub open spec fn sweep_table(t: LockTable, now: u64) -> LockTable {
    LockTable {
        locks: Map::new(
            |k: (u128, FieldSet)| t.locks.contains_key(k) && in_force(t.locks[k].1, t.ttl, now),
            |k: (u128, FieldSet)| t.locks[k],
        ),
        ..t
    }
}

// -------------------------------------------------------------------
// The entry list behind the table.
// -------------------------------------------------------------------

/// One held lock.
#[derive(Debug)]
pub struct LockEntry {
    pub row: u128,
    pub field_set: FieldSet,
    pub holder: String,
    pub touched_ms: u64,
}

/// The key of an entry.
pub open spec fn key_of(e: LockEntry) -> (u128, FieldSet) {
    (e.row, e.field_set)
}

/// The value of an entry.
pub open spec fn val_of(e: LockEntry) -> (Seq<char>, u64) {
    (e.holder@, e.touched_ms)
}

/// The map an entry list stands for.
pub open spec fn entries_map(es: Seq<LockEntry>) -> Map<(u128, FieldSet), (Seq<char>, u64)>
    decreases es.len(),
{
    if es.len() == 0 {
        Map::empty()
    } else {
        entries_map(es.drop_last()).insert(key_of(es.last()), val_of(es.last()))
    }
}

/// No two entries share a key.
pub open spec fn distinct_keys(es: Seq<LockEntry>) -> bool {
    forall|i: int, j: int| 0 <= i < j < es.len() ==> key_of(es[i]) != key_of(es[j])
}

proof fn lemma_map_lookup(es: Seq<LockEntry>, i: int)
    requires
        0 <= i < es.len(),
        distinct_keys(es),
    ensures
        entries_map(es).contains_key(key_of(es[i])),
        entries_map(es)[key_of(es[i])] == val_of(es[i]),
    decreases es.len(),
{
    if i < es.len() - 1 {
        let d = es.drop_last();
        assert(d[i] == es[i]);
        assert(distinct_keys(d));
        lemma_map_lookup(d, i);
        assert(key_of(es[i]) != key_of(es[es.len() - 1]));
    }
}

proof fn lemma_map_absent(es: Seq<LockEntry>, k: (u128, FieldSet))
    requires
        forall|i: int| 0 <= i < es.len() ==> key_of(es[i]) != k,
    ensures
        !entries_map(es).contains_key(k),
    decreases es.len(),
{
    if es.len() > 0 {
        let d = es.drop_last();
        assert forall|i: int| 0 <= i < d.len() implies key_of(d[i]) != k by {
            assert(d[i] == es[i]);
        }
        lemma_map_absent(d, k);
        assert(key_of(es[es.len() - 1]) != k);
    }
}

proof fn lemma_map_update(es: Seq<LockEntry>, i: int, e: LockEntry)
    requires
        0 <= i < es.len(),
        distinct_keys(es),
        key_of(e) == key_of(es[i]),
    ensures
        entries_map(es.update(i, e)) == entries_map(es).insert(key_of(e), val_of(e)),
    decreases es.len(),
{
    let u = es.update(i, e);
    if i == es.len() - 1 {
        assert(u.drop_last() =~= es.drop_last());
        let d = es.drop_last();
        assert forall|j: int| 0 <= j < d.len() implies key_of(d[j]) != key_of(e) by {
            assert(d[j] == es[j]);
        }
        lemma_map_absent(d, key_of(e));
        assert(entries_map(u) =~= entries_map(es).insert(key_of(e), val_of(e)));
    } else {
        let d = es.drop_last();
        assert(u.drop_last() =~= d.update(i, e));
        assert(distinct_keys(d));
        assert(d[i] == es[i]);
        lemma_map_update(d, i, e);
        assert(key_of(es[i]) != key_of(es[es.len() - 1]));
        assert(u.last() == es.last());
        assert(entries_map(u) =~= entries_map(es).insert(key_of(e), val_of(e)));
    }
}

proof fn lemma_map_remove(es: Seq<LockEntry>, i: int)
    requires
        0 <= i < es.len(),
        distinct_keys(es),
    ensures
        entries_map(es.remove(i)) == entries_map(es).remove(key_of(es[i])),
        distinct_keys(es.remove(i)),
    decreases es.len(),
{
    let r = es.remove(i);
    let k = key_of(es[i]);
    assert forall|a: int, b: int| 0 <= a < b < r.len() implies key_of(r[a]) != key_of(r[b]) by {
        let a2 = if a < i {
            a
        } else {
            a + 1
        };
        let b2 = if b < i {
            b
        } else {
            b + 1
        };
        assert(r[a] == es[a2]);
        assert(r[b] == es[b2]);
    }
    if i == es.len() - 1 {
        assert(r =~= es.drop_last());
        let d = es.drop_last();
        assert forall|j: int| 0 <= j < d.len() implies key_of(d[j]) != k by {
            assert(d[j] == es[j]);
        }
        lemma_map_absent(d, k);
        assert(entries_map(r) =~= entries_map(es).remove(k));
    } else {
        let d = es.drop_last();
        assert(r.drop_last() =~= d.remove(i));
        assert(r.last() == es.last());
        assert(distinct_keys(d));
        assert(d[i] == es[i]);
        lemma_map_remove(d, i);
        assert(k != key_of(es[es.len() - 1]));
        assert(entries_map(r) =~= entries_map(es).remove(k));
    }
}

proof fn lemma_map_push(es: Seq<LockEntry>, e: LockEntry)
    requires
        distinct_keys(es),
        forall|i: int| 0 <= i < es.len() ==> key_of(es[i]) != key_of(e),
    ensures
        distinct_keys(es.push(e)),
        entries_map(es.push(e)) == entries_map(es).insert(key_of(e), val_of(e)),
{
    let p = es.push(e);
    assert(p.drop_last() =~= es);
    assert forall|a: int, b: int| 0 <= a < b < p.len() implies key_of(p[a]) != key_of(p[b]) by {
        assert(p[a] == es[a]);
        if b < es.len() {
            assert(p[b] == es[b]);
        }
    }
}

// -------------------------------------------------------------------
// The manager.
// -------------------------------------------------------------------

/// The advisory lock manager.
#[derive(Debug)]
pub struct LockManager {
    entries: Vec<LockEntry>,
    idle_ttl_ms: u64,
}

impl View for LockManager {
    type V = LockTable;

    closed spec fn view(&self) -> LockTable {
        LockTable { locks: entries_map(self.entries@), ttl: self.idle_ttl_ms }
    }
}

/// The current time in milliseconds since the Unix epoch; 0 before it.
fn clock_ms() -> u64 {
    let t = now_millis();
    if t < 0 {
        0
    } else {
        t as u64
    }
}

fn copy_entry(e: &LockEntry) -> (r: LockEntry)
    ensures
        r.row == e.row,
        r.field_set == e.field_set,
        r.holder@ == e.holder@,
        r.touched_ms == e.touched_ms,
{
    LockEntry { row: e.row, field_set: e.field_set, holder: to_string(e.holder.as_str()), touched_ms: e.touched_ms }
}

impl LockManager {
    #[verifier::type_invariant]
    spec fn keys_distinct(self) -> bool {
        distinct_keys(self.entries@)
    }

    /// A manager with no locks whose locks lapse after `idle_ttl_ms`.
    pub fn new(idle_ttl_ms: u64) -> (r: Self)
        ensures
            r@ == (LockTable { locks: Map::empty(), ttl: idle_ttl_ms }),
    {
        let r = LockManager { entries: Vec::new(), idle_ttl_ms };
        assert(r@ =~= (LockTable { locks: Map::empty(), ttl: idle_ttl_ms }));
        r
    }

    /// Changes the idle time after which locks lapse.
    pub fn set_idle_ttl(&mut self, idle_ttl_ms: u64)
        ensures
            final(self)@ == (LockTable { ttl: idle_ttl_ms, ..old(self)@ }),
    {
        proof {
            use_type_invariant(&*self);
        }
        self.idle_ttl_ms = idle_ttl_ms;
    }

    fn find(&self, row: u128, field_set: FieldSet) -> (r: Option<usize>)
        ensures
            match r {
                Some(i) => i < self.entries@.len() && key_of(self.entries@[i as int]) == (row, field_set),
                None => forall|i: int|
                    0 <= i < self.entries@.len() ==> key_of(self.entries@[i]) != (row, field_set),
            },
    {
        let mut i: usize = 0;
        while i < self.entries.len()
            invariant
                i <= self.entries.len(),
                forall|j: int| 0 <= j < i ==> key_of(self.entries@[j]) != (row, field_set),
            decreases self.entries.len() - i,
        {
            if self.entries[i].row == row && self.entries[i].field_set == field_set {
                return Some(i);
            }
            i += 1;
        }
        None
    }

    /// Asks for the lock on `(row, field_set)` for `holder` at time `now`
    /// (see [`try_lock_result`] and [`try_lock_table`]).
    pub fn try_lock_at(&mut self, row: u128, field_set: FieldSet, holder: &str, now: u64) -> (r: Result<
        (),
        LockError,
    >)
        ensures
            match r {
                Ok(()) => try_lock_result(old(self)@, (row, field_set), holder@, now) is Ok,
                Err(e) => try_lock_result(old(self)@, (row, field_set), holder@, now) == Err::<
                    (),
                    LockFailure,
                >(failure_of(e)),
            },
            final(self)@ == try_lock_table(old(self)@, (row, field_set), holder@, now),
    {
        proof {
            use_type_invariant(&*self);
        }
        let ghost key = (row, field_set);
        let ghost es = self.entries@;
        if chars_of(holder).len() == 0 {
            return Err(LockError { kind: LockErrorKind::UnknownHolder });
        }
        let entry = LockEntry { row, field_set, holder: to_string(holder), touched_ms: now };
        match self.find(row, field_set) {
            Some(i) => {
                proof {
                    lemma_map_lookup(es, i as int);
                }
                let current = &self.entries[i];
                let live = now as u128 <= current.touched_ms as u128 + self.idle_ttl_ms as u128;
                if live && !str_eq(current.holder.as_str(), holder) {
                    let h = to_string(current.holder.as_str());
                    return Err(LockError { kind: LockErrorKind::Held { holder: h } });
                }
                let ghost ge = entry;
                let mut v: Vec<LockEntry> = Vec::new();
                std::mem::swap(&mut v, &mut self.entries);
                v.set(i, entry);
                proof {
                    lemma_map_update(es, i as int, ge);
                    assert(v@ == es.update(i as int, ge));
                    assert forall|a: int, b: int| 0 <= a < b < v@.len() implies key_of(v@[a]) != key_of(
                        v@[b],
                    ) by {
                        if a != i as int && b != i as int {
                            assert(v@[a] == es[a] && v@[b] == es[b]);
                        } else if a == i as int {
                            assert(v@[b] == es[b]);
                        } else {
                            assert(v@[a] == es[a]);
                        }
                    }
                }
                self.entries = v;
                assert(self@ =~= try_lock_table(old(self)@, key, holder@, now));
                Ok(())
            },
            None => {
                proof {
                    lemma_map_absent(es, key);
                    lemma_map_push(es, entry);
                }
                let mut v: Vec<LockEntry> = Vec::new();
                std::mem::swap(&mut v, &mut self.entries);
                v.push(entry);
                self.entries = v;
                assert(self@ =~= try_lock_table(old(self)@, key, holder@, now));
                Ok(())
            },
        }
    }

    /// Gives up `holder`'s lock on `(row, field_set)` at time `now` (see
    /// [`release_result`] and [`release_table`]).
    pub fn release_at(&mut self, row: u128, field_set: FieldSet, holder: &str, now: u64) -> (r: Result<
        (),
        LockError,
    >)
        ensures
            match r {
                Ok(()) => release_result(old(self)@, (row, field_set), holder@, now) is Ok,
                Err(e) => release_result(old(self)@, (row, field_set), holder@, now) == Err::<
                    (),
                    LockFailure,
                >(failure_of(e)),
            },
            final(self)@ == release_table(old(self)@, (row, field_set), holder@, now),
    {
        proof {
            use_type_invariant(&*self);
        }
        let ghost key = (row, field_set);
        let ghost es = self.entries@;
        match self.find(row, field_set) {
            Some(i) => {
                proof {
                    lemma_map_lookup(es, i as int);
                }
                let current = &self.entries[i];
                let live = now as u128 <= current.touched_ms as u128 + self.idle_ttl_ms as u128;
                if !live {
                    return Err(LockError { kind: LockErrorKind::UnknownHolder });
                }
                if !str_eq(current.holder.as_str(), holder) {
                    let h = to_string(current.holder.as_str());
                    return Err(LockError { kind: LockErrorKind::Held { holder: h } });
                }
                proof {
                    lemma_map_remove(es, i as int);
                }
                let mut v: Vec<LockEntry> = Vec::new();
                std::mem::swap(&mut v, &mut self.entries);
                v.remove(i);
                self.entries = v;
                assert(self@ =~= release_table(old(self)@, key, holder@, now));
                Ok(())
            },
            None => {
                proof {
                    lemma_map_absent(es, key);
                }
                Err(LockError { kind: LockErrorKind::UnknownHolder })
            },
        }
    }

    /// Drops every lock that has lapsed at time `now`.
    pub fn sweep_expired_at(&mut self, now: u64)
        ensures
            final(self)@ == sweep_table(old(self)@, now),
    {
        proof {
            use_type_invariant(&*self);
        }
        let ghost es = self.entries@;
        let ghost t0 = self@;
        let ttl = self.idle_ttl_ms;
        let mut old_entries: Vec<LockEntry> = Vec::new();
        std::mem::swap(&mut old_entries, &mut self.entries);
        let mut kept: Vec<LockEntry> = Vec::new();
        let mut i: usize = 0;
        while i < old_entries.len()
            invariant
                i <= old_entries.len(),
                old_entries@ == es,
                distinct_keys(es),
                ttl == t0.ttl,
                t0.locks == entries_map(es),
                distinct_keys(kept@),
                forall|j: int|
                    0 <= j < kept@.len() ==> exists|a: int|
                        0 <= a < i && #[trigger] key_of(kept@[j]) == key_of(es[a]),
                entries_map(kept@) == sweep_table(
                    LockTable { locks: entries_map(es.take(i as int)), ttl },
                    now,
                ).locks,
            decreases old_entries.len() - i,
        {
            let e = &old_entries[i];
            let ghost pre = es.take(i as int);
            assert(es.take(i + 1) =~= pre.push(es[i as int]));
            assert(entries_map(es.take(i + 1)) == entries_map(pre).insert(
                key_of(es[i as int]),
                val_of(es[i as int]),
            )) by {
                assert(es.take(i + 1).drop_last() =~= pre);
            }
            assert(forall|j: int| 0 <= j < kept@.len() ==> key_of(kept@[j]) != key_of(es[i as int]))
                by {
                assert forall|j: int| 0 <= j < kept@.len() implies key_of(kept@[j]) != key_of(
                    es[i as int],
                ) by {
                    let a = choose|a: int| 0 <= a < i && key_of(kept@[j]) == key_of(es[a]);
                    assert(key_of(es[a]) != key_of(es[i as int]));
                }
            }
            if now as u128 <= e.touched_ms as u128 + ttl as u128 {
                let c = copy_entry(e);
                proof {
                    lemma_map_push(kept@, c);
                }
                kept.push(c);
                assert(entries_map(kept@) =~= sweep_table(
                    LockTable { locks: entries_map(es.take(i + 1)), ttl },
                    now,
                ).locks);
                assert forall|j: int| 0 <= j < kept@.len() implies exists|a: int|
                    0 <= a < i + 1 && #[trigger] key_of(kept@[j]) == key_of(es[a]) by {
                    if j < kept@.len() - 1 {
                        let a = choose|a: int| 0 <= a < i && key_of(kept@[j]) == key_of(es[a]);
                        assert(key_of(kept@[j]) == key_of(es[a]));
                    } else {
                        assert(key_of(kept@[j]) == key_of(es[i as int]));
                    }
                }
            } else {
                proof {
                    let pre_map = entries_map(pre);
                    let pre_keys = pre;
                    assert forall|a: int| 0 <= a < pre.len() implies key_of(pre[a]) != key_of(
                        es[i as int],
                    ) by {
                        assert(pre[a] == es[a]);
                    }
                    lemma_map_absent(pre, key_of(es[i as int]));
                }
                assert(entries_map(kept@) =~= sweep_table(
                    LockTable { locks: entries_map(es.take(i + 1)), ttl },
                    now,
                ).locks);
            }
            i += 1;
        }
        assert(es.take(old_entries.len() as int) =~= es);
        self.entries = kept;
        assert(self@ =~= sweep_table(t0, now));
    }

    /// Asks for the lock at the current time (see [`try_lock_at`]).
    pub fn try_lock(&mut self, row: u128, field_set: FieldSet, holder: &str) -> (r: Result<
        (),
        LockError,
    >)
        ensures
            exists|now: u64|
                {
                    &&& match r {
                        Ok(()) => try_lock_result(old(self)@, (row, field_set), holder@, now) is Ok,
                        Err(e) => try_lock_result(old(self)@, (row, field_set), holder@, now)
                            == Err::<(), LockFailure>(failure_of(e)),
                    }
                    &&& final(self)@ == try_lock_table(old(self)@, (row, field_set), holder@, now)
                },
    {
        let now = clock_ms();
        self.try_lock_at(row, field_set, holder, now)
    }

    /// Gives up a lock at the current time (see [`release_at`]).
    pub fn release(&mut self, row: u128, field_set: FieldSet, holder: &str) -> (r: Result<
        (),
        LockError,
    >)
        ensures
            exists|now: u64|
                {
                    &&& match r {
                        Ok(()) => release_result(old(self)@, (row, field_set), holder@, now) is Ok,
                        Err(e) => release_result(old(self)@, (row, field_set), holder@, now)
                            == Err::<(), LockFailure>(failure_of(e)),
                    }
                    &&& final(self)@ == release_table(old(self)@, (row, field_set), holder@, now)
                },
    {
        let now = clock_ms();
        self.release_at(row, field_set, holder, now)
    }

    /// Drops the locks that have lapsed by the current time.
    pub fn sweep_expired(&mut self)
        ensures
            exists|now: u64| final(self)@ == sweep_table(old(self)@, now),
    {
        let now = clock_ms();
        self.sweep_expired_at(now);
    }
}

// -------------------------------------------------------------------
// Laws of the lock table.
// -------------------------------------------------------------------

/// While a holder's lock is in force, every other holder is refused and
/// told who holds it.
pub proof fn law_lock_exclusive(
    t: LockTable,
    key: (u128, FieldSet),
    a: Seq<char>,
    b: Seq<char>,
    t1: u64,
    t2: u64,
)
    requires
        try_lock_result(t, key, a, t1) is Ok,
        b.len() > 0,
        a != b,
        t1 <= t2 <= t1 + t.ttl,
    ensures
        try_lock_result(try_lock_table(t, key, a, t1), key, b, t2) == Err::<(), LockFailure>(
            LockFailure::Held(a),
        ),
{
}

/// A holder may renew its own lock while it is in force.
pub proof fn law_lock_renewable(t: LockTable, key: (u128, FieldSet), a: Seq<char>, t1: u64, t2: u64)
    requires
        try_lock_result(t, key, a, t1) is Ok,
        t1 <= t2 <= t1 + t.ttl,
    ensures
        try_lock_result(try_lock_table(t, key, a, t1), key, a, t2) is Ok,
{
}

/// Once its holder releases a lock, anyone may take it.
pub proof fn law_release_frees(
    t: LockTable,
    key: (u128, FieldSet),
    a: Seq<char>,
    b: Seq<char>,
    t1: u64,
    t2: u64,
    t3: u64,
)
    requires
        try_lock_result(t, key, a, t1) is Ok,
        t1 <= t2 <= t1 + t.ttl,
        b.len() > 0,
    ensures
        release_result(try_lock_table(t, key, a, t1), key, a, t2) is Ok,
        try_lock_result(release_table(try_lock_table(t, key, a, t1), key, a, t2), key, b, t3) is Ok,
{
}

/// A lock left idle longer than the idle time lapses: anyone may take it.
pub proof fn law_lapsed_lock_taken_over(
    t: LockTable,
    key: (u128, FieldSet),
    a: Seq<char>,
    b: Seq<char>,
    t1: u64,
    t2: u64,
)
    requires
        try_lock_result(t, key, a, t1) is Ok,
        t2 > t1 + t.ttl,
        b.len() > 0,
    ensures
        try_lock_result(try_lock_table(t, key, a, t1), key, b, t2) is Ok,
{
}

/// Locks on different (row, field set) pairs do not affect each other:
/// taking or releasing one leaves every answer about another unchanged.
pub proof fn law_keys_independent(
    t: LockTable,
    k1: (u128, FieldSet),
    k2: (u128, FieldSet),
    a: Seq<char>,
    b: Seq<char>,
    t1: u64,
    t2: u64,
)
    requires
        k1 != k2,
    ensures
        try_lock_result(try_lock_table(t, k1, a, t1), k2, b, t2) == try_lock_result(t, k2, b, t2),
        release_result(try_lock_table(t, k1, a, t1), k2, b, t2) == release_result(t, k2, b, t2),
        try_lock_result(release_table(t, k1, a, t1), k2, b, t2) == try_lock_result(t, k2, b, t2),
        release_result(release_table(t, k1, a, t1), k2, b, t2) == release_result(t, k2, b, t2),
{
}

/// Sweeping lapsed locks changes no later answer.
pub proof fn law_sweep_unobservable(
    t: LockTable,
    now: u64,
    key: (u128, FieldSet),
    h: Seq<char>,
    later: u64,
)
    requires
        now <= later,
    ensures
        try_lock_result(sweep_table(t, now), key, h, later) == try_lock_result(t, key, h, later),
        release_result(sweep_table(t, now), key, h, later) == release_result(t, key, h, later),
{
}

/// A request without a holder name is refused as unknown, whatever the
/// table holds; releasing a lock nobody holds in force is refused as
/// unknown; releasing another holder's lock in force is refused naming
/// that holder and keeps the lock.
pub proof fn law_refusals(
    t: LockTable,
    key: (u128, FieldSet),
    a: Seq<char>,
    b: Seq<char>,
    t1: u64,
    t2: u64,
    now: u64,
)
    requires
        try_lock_result(t, key, a, t1) is Ok,
        a != b,
        t1 <= t2 <= t1 + t.ttl,
    ensures
        try_lock_result(t, key, Seq::empty(), now) == Err::<(), LockFailure>(LockFailure::UnknownHolder),
        live_holder(t, key, now) is None ==> release_result(t, key, b, now) == Err::<(), LockFailure>(
            LockFailure::UnknownHolder,
        ),
        release_result(try_lock_table(t, key, a, t1), key, b, t2) == Err::<(), LockFailure>(
            LockFailure::Held(a),
        ),
        release_table(try_lock_table(t, key, a, t1), key, b, t2) == try_lock_table(t, key, a, t1),
{
}

} // verus!
