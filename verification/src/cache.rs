//! The answer cache: at most one entry per key, each with a time after which
//! it is no longer shown.
//!
//! The store is a plain value. Whoever shares it between tasks wraps it in a
//! lock and takes that lock once per call.

use crate::clock::now_millis;
use crate::record::{clone_records, RecordType, RecordView, ResolvedRecord, views};
use vstd::prelude::*;

verus! {

/// Seconds an entry lives when the answers it holds name no lifetime.
pub const DEFAULT_TTL: u32 = 3600;

/// Seconds between two sweeps of a store that is swept in the background.
pub const SWEEP_INTERVAL_SECS: u64 = 60;

/// What an entry is filed under: the kind of query and the name exactly as it
/// was asked.
pub ghost struct CacheKey {
    pub rt: RecordType,
    pub name: Seq<char>,
}

/// What is filed: the answers, and the instant (in milliseconds) from which
/// they are stale.
pub ghost struct EntryView {
    pub records: Seq<RecordView>,
    pub expires_at: int,
}

/// The largest lifetime among the records, 0 for none.
pub open spec fn max_ttl(records: Seq<RecordView>) -> nat
    decreases records.len(),
{
    if records.len() == 0 {
        0
    } else {
        let before = max_ttl(records.drop_last());
        if records.last().ttl > before {
            records.last().ttl as nat
        } else {
            before
        }
    }
}

/// Seconds an entry with these answers lives: the largest lifetime among them,
/// or the default when there are none.
pub open spec fn lifetime(records: Seq<RecordView>) -> nat {
    if records.len() == 0 {
        DEFAULT_TTL as nat
    } else {
        max_ttl(records)
    }
}

/// The entry that an insert at `now` files for these answers.
pub open spec fn entry_at(records: Seq<RecordView>, now: int) -> EntryView {
    EntryView { records, expires_at: now + 1000 * lifetime(records) }
}

/// What a reader sees under `key` at `now`: the answers while the entry is
/// fresh, nothing once it is stale or when there is none.
pub open spec fn visible(store: Map<CacheKey, EntryView>, key: CacheKey, now: int) -> Option<
    Seq<RecordView>,
> {
    if store.contains_key(key) && now < store[key].expires_at {
        Some(store[key].records)
    } else {
        None
    }
}

/// The store with every entry that is stale at `now` taken out.
pub open spec fn swept(store: Map<CacheKey, EntryView>, now: int) -> Map<CacheKey, EntryView> {
    store.restrict(Set::new(|key: CacheKey| store.contains_key(key) && now < store[key].expires_at))
}

/// Whether `found` is what a read of `key` at `now` gives.
pub open spec fn reads_as(
    store: Map<CacheKey, EntryView>,
    key: CacheKey,
    now: int,
    found: Option<Vec<ResolvedRecord>>,
) -> bool {
    match found {
        Some(records) => visible(store, key, now) == Some(views(records@)),
        None => visible(store, key, now) is None,
    }
}

/// The largest lifetime is one of the lifetimes and bounds them all.
pub proof fn lemma_max_ttl_is_max(records: Seq<RecordView>)
    requires
        records.len() > 0,
    ensures
        exists|i: int| 0 <= i < records.len() && #[trigger] records[i].ttl == max_ttl(records),
        forall|i: int| 0 <= i < records.len() ==> #[trigger] records[i].ttl <= max_ttl(records),
    decreases records.len(),
{
    let front = records.drop_last();
    if front.len() > 0 {
        lemma_max_ttl_is_max(front);
        assert forall|i: int| 0 <= i < records.len() implies #[trigger] records[i].ttl <= max_ttl(
            records,
        ) by {
            if i < front.len() {
                assert(records[i] == front[i]);
            }
        }
    } else {
        assert(max_ttl(front) == 0);
        assert(records[0].ttl == max_ttl(records));
    }
}

/// Seconds an entry with these answers is to live.
pub fn ttl_for(answers: &[ResolvedRecord]) -> (ttl: u32)
    ensures
        ttl == lifetime(views(answers@)),
{
    if answers.len() == 0 {
        return DEFAULT_TTL;
    }
    let ghost all = views(answers@);
    let mut best: u32 = 0;
    let mut i: usize = 0;
    while i < answers.len()
        invariant
            i <= answers.len(),
            all == views(answers@),
            best == max_ttl(all.take(i as int)),
        decreases answers.len() - i,
    {
        proof {
            assert(all.take(i + 1).drop_last() =~= all.take(i as int));
        }
        if answers[i].ttl > best {
            best = answers[i].ttl;
        }
        i += 1;
    }
    proof {
        assert(all.take(i as int) =~= all);
    }
    best
}

/// An entry filed at `now` reads back with its records unchanged at every
/// instant before `now` plus its lifetime, and reads as none at that instant
/// and at every later one.
pub proof fn lemma_fresh_until_expiry(
    store: Map<CacheKey, EntryView>,
    key: CacheKey,
    records: Seq<RecordView>,
    now: int,
    t: int,
)
    ensures
        t < now + 1000 * lifetime(records) ==> visible(
            store.insert(key, entry_at(records, now)),
            key,
            t,
        ) == Some(records),
        t >= now + 1000 * lifetime(records) ==> visible(
            store.insert(key, entry_at(records, now)),
            key,
            t,
        ) is None,
{
}

/// Filing twice under one key leaves the second entry alone: its records and
/// its expiry, and nothing of the first. Every other key is as if only the
/// second insert had been made.
pub proof fn lemma_second_insert_wins(
    store: Map<CacheKey, EntryView>,
    key: CacheKey,
    first: Seq<RecordView>,
    first_now: int,
    second: Seq<RecordView>,
    second_now: int,
)
    ensures
        store.insert(key, entry_at(first, first_now)).insert(key, entry_at(second, second_now))
            == store.insert(key, entry_at(second, second_now)),
        store.insert(key, entry_at(first, first_now)).insert(key, entry_at(second, second_now))[key]
            == entry_at(second, second_now),
{
    assert(store.insert(key, entry_at(first, first_now)).insert(key, entry_at(second, second_now))
        =~= store.insert(key, entry_at(second, second_now)));
}

/// Two inserts under one key, made one after the other in either order, leave
/// the entry of whichever came last and never a mix of the two.
pub proof fn lemma_last_insert_stands(
    store: Map<CacheKey, EntryView>,
    key: CacheKey,
    a: Seq<RecordView>,
    a_now: int,
    b: Seq<RecordView>,
    b_now: int,
)
    ensures
        store.insert(key, entry_at(a, a_now)).insert(key, entry_at(b, b_now))[key] == entry_at(
            b,
            b_now,
        ),
        store.insert(key, entry_at(b, b_now)).insert(key, entry_at(a, a_now))[key] == entry_at(
            a,
            a_now,
        ),
{
}

/// A sweep at `now` takes out exactly the entries that are stale at `now`:
/// none of them can be read afterwards, at any instant, and every entry that
/// is still fresh stays as it was.
pub proof fn lemma_sweep_complete(store: Map<CacheKey, EntryView>, now: int, key: CacheKey)
    ensures
        store.contains_key(key) && store[key].expires_at <= now ==> !swept(
            store,
            now,
        ).contains_key(key) && forall|t: int| visible(swept(store, now), key, t) is None,
        store.contains_key(key) && store[key].expires_at > now ==> swept(store, now).contains_key(
            key,
        ) && swept(store, now)[key] == store[key],
        !store.contains_key(key) ==> !swept(store, now).contains_key(key),
{
}

/// A sweep changes nothing for readers: at the instant of the sweep and at
/// every later one, each key reads after the sweep as it would have read
/// without it.
pub proof fn lemma_sweep_unseen(store: Map<CacheKey, EntryView>, now: int, key: CacheKey, t: int)
    requires
        now <= t,
    ensures
        visible(swept(store, now), key, t) == visible(store, key, t),
{
}

/// One stored entry. The expiry is kept as the instant of the insert and the
/// lifetime, so that no sum has to fit a machine integer.
struct Slot {
    rt: RecordType,
    name: String,
    records: Vec<ResolvedRecord>,
    stored_at: i64,
    ttl: u32,
}

impl Slot {
    /// The key the slot is filed under.
    spec fn key(&self) -> CacheKey {
        CacheKey { rt: self.rt, name: self.name@ }
    }

    /// The entry the slot stands for.
    spec fn entry(&self) -> EntryView {
        EntryView { records: views(self.records@), expires_at: self.stored_at + 1000 * self.ttl }
    }

    /// Whether the entry is still fresh at `now`.
    fn fresh_at(&self, now: i64) -> (fresh: bool)
        ensures
            fresh == (now < self.entry().expires_at),
    {
        (now as i128) < (self.stored_at as i128) + 1000 * (self.ttl as i128)
    }
}

/// No two slots share a key.
spec fn distinct(slots: Seq<Slot>) -> bool {
    forall|i: int, j: int|
        0 <= i < j < slots.len() ==> (#[trigger] slots[i]).key() != (#[trigger] slots[j]).key()
}

/// Some slot is filed under the key.
spec fn holds(slots: Seq<Slot>, key: CacheKey) -> bool {
    exists|i: int| 0 <= i < slots.len() && (#[trigger] slots[i]).key() == key
}

/// Where the slot of the key stands, if there is one.
spec fn place(slots: Seq<Slot>, key: CacheKey) -> int {
    choose|i: int| 0 <= i < slots.len() && (#[trigger] slots[i]).key() == key
}

/// The slots as a map from key to entry.
spec fn as_map(slots: Seq<Slot>) -> Map<CacheKey, EntryView> {
    Map::new(|key: CacheKey| holds(slots, key), |key: CacheKey| slots[place(slots, key)].entry())
}

/// With distinct keys, the slot at `i` is the one its key is looked up to.
proof fn lemma_place(slots: Seq<Slot>, i: int)
    requires
        distinct(slots),
        0 <= i < slots.len(),
    ensures
        holds(slots, slots[i].key()),
        place(slots, slots[i].key()) == i,
        as_map(slots).contains_key(slots[i].key()),
        as_map(slots)[slots[i].key()] == slots[i].entry(),
{
}

/// A key that is held has its slot at `place`.
proof fn lemma_held(slots: Seq<Slot>, key: CacheKey)
    requires
        holds(slots, key),
    ensures
        0 <= place(slots, key) < slots.len(),
        slots[place(slots, key)].key() == key,
{
}

/// Replacing a slot by one of the same key is an insert on the map.
proof fn lemma_overwrite(slots: Seq<Slot>, i: int, slot: Slot)
    requires
        distinct(slots),
        0 <= i < slots.len(),
        slots[i].key() == slot.key(),
    ensures
        distinct(slots.update(i, slot)),
        as_map(slots.update(i, slot)) == as_map(slots).insert(slot.key(), slot.entry()),
{
    let after = slots.update(i, slot);
    let target = as_map(slots).insert(slot.key(), slot.entry());
    assert(distinct(after));
    assert forall|key: CacheKey| as_map(after).contains_key(key) <==> target.contains_key(
        key,
    ) by {
        if holds(after, key) {
            lemma_held(after, key);
        }
        if holds(slots, key) {
            lemma_held(slots, key);
            assert(after[place(slots, key)].key() == key);
        }
    }
    assert forall|key: CacheKey| as_map(after).contains_key(key) implies as_map(after)[key]
        == target[key] by {
        lemma_held(after, key);
        let p: int = place(after, key);
        lemma_place(after, p);
        if p != i {
            lemma_place(slots, p);
        }
    }
}

/// Appending a slot with a new key is an insert on the map.
proof fn lemma_append(slots: Seq<Slot>, slot: Slot)
    requires
        distinct(slots),
        !holds(slots, slot.key()),
    ensures
        distinct(slots.push(slot)),
        as_map(slots.push(slot)) == as_map(slots).insert(slot.key(), slot.entry()),
{
    let after = slots.push(slot);
    let last: int = slots.len() as int;
    let target = as_map(slots).insert(slot.key(), slot.entry());
    assert(distinct(after));
    assert forall|key: CacheKey| as_map(after).contains_key(key) <==> target.contains_key(
        key,
    ) by {
        if holds(after, key) {
            lemma_held(after, key);
        }
        if holds(slots, key) {
            lemma_held(slots, key);
            assert(after[place(slots, key)].key() == key);
        }
        assert(after[last].key() == slot.key());
    }
    assert forall|key: CacheKey| as_map(after).contains_key(key) implies as_map(after)[key]
        == target[key] by {
        lemma_held(after, key);
        let p: int = place(after, key);
        lemma_place(after, p);
        if p < last {
            lemma_place(slots, p);
        }
    }
}

/// With distinct keys, the map has one key per slot.
proof fn lemma_size(slots: Seq<Slot>)
    requires
        distinct(slots),
    ensures
        as_map(slots).dom().finite(),
        as_map(slots).dom().len() == slots.len(),
    decreases slots.len(),
{
    if slots.len() == 0 {
        assert(as_map(slots).dom() =~= Set::<CacheKey>::empty());
    } else {
        let front = slots.drop_last();
        let slot = slots.last();
        assert(distinct(front));
        if holds(front, slot.key()) {
            lemma_held(front, slot.key());
        }
        lemma_size(front);
        lemma_append(front, slot);
        assert(front.push(slot) =~= slots);
    }
}

/// The store of cached answers. The entries stand in a vector that is searched
/// in order: the verifier's model of a hash map covers integer keys only, not
/// a key that holds a name.
pub struct Cache {
    slots: Vec<Slot>,
}

impl View for Cache {
    type V = Map<CacheKey, EntryView>;

    closed spec fn view(&self) -> Map<CacheKey, EntryView> {
        as_map(self.slots@)
    }
}

impl Cache {
    #[verifier::type_invariant]
    spec fn one_entry_per_key(&self) -> bool {
        distinct(self.slots@)
    }

    /// An empty store.
    pub fn new() -> (cache: Cache)
        ensures
            cache@ == Map::<CacheKey, EntryView>::empty(),
    {
        Cache { slots: Vec::new() }
    }

    /// How many entries the store holds, stale ones included.
    pub fn len(&self) -> (n: usize)
        ensures
            self@.dom().finite(),
            n == self@.len(),
    {
        proof {
            use_type_invariant(self);
            lemma_size(self.slots@);
        }
        self.slots.len()
    }

    /// The index of the slot filed under the key, if there is one.
    fn find(&self, rt: &RecordType, domain: &String) -> (at: Option<usize>)
        ensures
            match at {
                Some(i) => i < self.slots.len() && self.slots[i as int].key() == (CacheKey {
                    rt: *rt,
                    name: domain@,
                }),
                None => !holds(self.slots@, CacheKey { rt: *rt, name: domain@ }),
            },
    {
        let mut i: usize = 0;
        while i < self.slots.len()
            invariant
                i <= self.slots.len(),
                forall|j: int|
                    0 <= j < i ==> (#[trigger] self.slots[j]).key() != (CacheKey {
                        rt: *rt,
                        name: domain@,
                    }),
            decreases self.slots.len() - i,
        {
            if self.slots[i].rt == *rt && self.slots[i].name == *domain {
                return Some(i);
            }
            i += 1;
        }
        None
    }

    /// Reads the answers filed under the key as the clock stands at `now`
    /// (milliseconds). A stale entry reads as none, swept or not; the store is
    /// left as it is.
    pub fn get_at(&self, rt: &RecordType, domain: &str, now: i64) -> (found: Option<
        Vec<ResolvedRecord>,
    >)
        ensures
            reads_as(self@, CacheKey { rt: *rt, name: domain@ }, now as int, found),
    {
        proof {
            use_type_invariant(self);
        }
        let wanted = domain.to_owned();
        match self.find(rt, &wanted) {
            Some(i) => {
                proof {
                    lemma_place(self.slots@, i as int);
                }
                if self.slots[i].fresh_at(now) {
                    Some(clone_records(self.slots[i].records.as_slice()))
                } else {
                    None
                }
            },
            None => None,
        }
    }

    /// Files the answers under the key, in place of whatever was there, to
    /// live from `now` (milliseconds) for as long as `lifetime` gives.
    pub fn insert_at(&mut self, rt: &RecordType, domain: &str, answers: &[ResolvedRecord], now: i64)
        ensures
            final(self)@ == old(self)@.insert(
                CacheKey { rt: *rt, name: domain@ },
                entry_at(views(answers@), now as int),
            ),
    {
        proof {
            use_type_invariant(&*self);
        }
        let ttl: u32 = ttl_for(answers);
        let name = domain.to_owned();
        let at = self.find(rt, &name);
        let slot = Slot { rt: *rt, name, records: clone_records(answers), stored_at: now, ttl };
        let mut slots: Vec<Slot> = Vec::new();
        core::mem::swap(&mut self.slots, &mut slots);
        match at {
            Some(i) => {
                proof {
                    lemma_overwrite(slots@, i as int, slot);
                }
                slots.set(i, slot);
            },
            None => {
                proof {
                    lemma_append(slots@, slot);
                }
                slots.push(slot);
            },
        }
        self.slots = slots;
    }

    /// Takes out every entry that is stale at `now` (milliseconds) and says
    /// how many went. Entries still fresh stay as they are.
    pub fn clean_at(&mut self, now: i64) -> (removed: usize)
        ensures
            final(self)@ == swept(old(self)@, now as int),
            old(self)@.dom().finite(),
            removed == old(self)@.len() - final(self)@.len(),
    {
        proof {
            use_type_invariant(&*self);
            lemma_size(self.slots@);
        }
        let ghost before = self.slots@;
        let total: usize = self.slots.len();
        let mut rest: Vec<Slot> = Vec::new();
        core::mem::swap(&mut self.slots, &mut rest);
        let mut kept: Vec<Slot> = Vec::new();
        let ghost mut source: Seq<int> = Seq::empty();
        while rest.len() > 0
            invariant
                distinct(before),
                rest@ == before.take(rest.len() as int),
                rest.len() <= before.len(),
                distinct(kept@),
                source.len() == kept.len(),
                kept.len() + rest.len() <= before.len(),
                forall|k: int|
                    0 <= k < kept.len() ==> rest.len() <= #[trigger] source[k] < before.len()
                        && kept[k] == before[source[k]] && now < kept[k].entry().expires_at,
                forall|j: int|
                    rest.len() <= j < before.len() && now < (
                    #[trigger] before[j]).entry().expires_at ==> holds(kept@, before[j].key()),
            decreases rest.len(),
        {
            let ghost n = rest.len() as int;
            let slot = rest.pop().unwrap();
            if slot.fresh_at(now) {
                proof {
                    if holds(kept@, slot.key()) {
                        lemma_held(kept@, slot.key());
                        let p: int = place(kept@, slot.key());
                        assert(kept[p] == before[source[p]]);
                    }
                    assert(!holds(kept@, slot.key()));
                    lemma_append(kept@, slot);
                    source = source.push(n - 1);
                    let ghost grown = kept@.push(slot);
                    assert forall|j: int|
                        n - 1 <= j < before.len() && now < (
                        #[trigger] before[j]).entry().expires_at implies holds(
                        grown,
                        before[j].key(),
                    ) by {
                        if j == n - 1 {
                            assert(grown[kept.len() as int].key() == before[j].key());
                        } else {
                            lemma_held(kept@, before[j].key());
                            assert(grown[place(kept@, before[j].key())].key() == before[j].key());
                        }
                    }
                }
                kept.push(slot);
            }
        }
        proof {
            lemma_size(kept@);
            let target = swept(as_map(before), now as int);
            assert forall|key: CacheKey| as_map(kept@).contains_key(key) <==> target.contains_key(
                key,
            ) by {
                if holds(kept@, key) {
                    lemma_held(kept@, key);
                    let p: int = place(kept@, key);
                    lemma_place(before, source[p]);
                }
                if holds(before, key) {
                    lemma_held(before, key);
                    lemma_place(before, place(before, key));
                }
            }
            assert forall|key: CacheKey| as_map(kept@).contains_key(key) implies as_map(kept@)[key]
                == target[key] by {
                lemma_held(kept@, key);
                let p: int = place(kept@, key);
                lemma_place(kept@, p);
                lemma_place(before, source[p]);
            }
        }
        let removed: usize = total - kept.len();
        self.slots = kept;
        removed
    }

    /// Reads the answers filed under the key as the clock stands now.
    pub fn get(&self, rt: &RecordType, domain: &str) -> (found: Option<Vec<ResolvedRecord>>)
        ensures
            exists|now: i64|
                reads_as(self@, CacheKey { rt: *rt, name: domain@ }, now as int, found),
    {
        let now: i64 = now_millis();
        self.get_at(rt, domain, now)
    }

    /// Files the answers under the key, to live from now on.
    pub fn insert(&mut self, rt: &RecordType, domain: &str, answers: &[ResolvedRecord])
        ensures
            exists|now: i64|
                final(self)@ == old(self)@.insert(
                    CacheKey { rt: *rt, name: domain@ },
                    #[trigger] entry_at(views(answers@), now as int),
                ),
    {
        let now: i64 = now_millis();
        self.insert_at(rt, domain, answers, now);
        assert(self@ == old(self)@.insert(
            CacheKey { rt: *rt, name: domain@ },
            entry_at(views(answers@), now as int),
        ));
    }

    /// Takes out every entry that is stale now and says how many went.
    pub fn clean(&mut self) -> (removed: usize)
        ensures
            exists|now: i64| final(self)@ == #[trigger] swept(old(self)@, now as int),
            old(self)@.dom().finite(),
            removed == old(self)@.len() - final(self)@.len(),
    {
        let now: i64 = now_millis();
        self.clean_at(now)
    }
}

/// An empty store.
pub fn new() -> (cache: Cache)
    ensures
        cache@ == Map::<CacheKey, EntryView>::empty(),
{
    Cache::new()
}

} // verus!
