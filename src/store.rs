use crate::clock::now_millis;
use crate::record::{text_view, ttl_view, CacheRecord, RecordModel};
use vstd::prelude::*;

verus! {

/// What remains of the store `m` after a sweep at `now`: the records that are
/// not expired at that instant, untouched.
pub open spec fn swept(m: Map<Seq<char>, RecordModel>, now: int) -> Map<Seq<char>, RecordModel> {
    m.restrict(m.dom().filter(|k: Seq<char>| !m[k].expired_at(now)))
}

/// The record that a write at `now` creates.
pub open spec fn fresh_record(
    now: int,
    content: Seq<char>,
    ttl: Option<nat>,
    content_type: Option<Seq<char>>,
) -> RecordModel {
    RecordModel { created: now, ttl, content, content_type }
}

/// The content type served for a record: its own, or plain text.
pub open spec fn served_type(r: RecordModel) -> Seq<char> {
    match r.content_type {
        Some(t) => t,
        None => "text/plain"@,
    }
}

/// Whether `r` is what a reader of `key` is served from the store `m` at
/// `now`: a hit exactly when the key is present and its record live, carrying
/// the payload, the served content type and the age at that instant.
pub open spec fn served_at(m: Map<Seq<char>, RecordModel>, key: Seq<char>, now: int, r: Option<
    CacheHit,
>) -> bool {
    &&& r is Some <==> m.contains_key(key) && !m[key].expired_at(now)
    &&& r matches Some(h) ==> {
        &&& h.content@ == m[key].content
        &&& h.content_type@ == served_type(m[key])
        &&& h.age == m[key].age_at(now)
    }
}

/// Relies on `Vec::shrink_to`: it releases spare capacity and leaves the
/// elements as they were.
#[verifier::external_body]
fn shrink_storage<T>(v: &mut Vec<T>, min_capacity: usize)
    ensures
        final(v)@ == old(v)@,
{
    v.shrink_to(min_capacity)
}

/// What a reader is served for a live record.
pub struct CacheHit {
    pub content: String,
    pub content_type: String,
    pub age: i64,
}

/// The keyed collection of records, with the capacity it shrinks its storage
/// back toward after a sweep.
pub struct CacheService {
    storage: Vec<(String, CacheRecord)>,
    capacity: usize,
    model: Ghost<Map<Seq<char>, RecordModel>>,
}

impl View for CacheService {
    type V = Map<Seq<char>, RecordModel>;

    closed spec fn view(&self) -> Map<Seq<char>, RecordModel> {
        self.model@
    }
}

impl CacheService {
    /// Keys are unique in the storage, the storage holds exactly the records
    /// of the model, and the model has finitely many keys.
    pub closed spec fn wf(&self) -> bool {
        &&& self.model@.dom().finite()
        &&& forall|i: int, j: int|
            0 <= i < j < self.storage@.len() ==> #[trigger] self.storage@[i].0@
                != #[trigger] self.storage@[j].0@
        &&& forall|i: int|
            0 <= i < self.storage@.len() ==> self.model@.contains_key(#[trigger] self.storage@[i].0@)
                && self.model@[self.storage@[i].0@] == self.storage@[i].1@
        &&& forall|k: Seq<char>|
            #[trigger] self.model@.contains_key(k) ==> exists|i: int|
                0 <= i < self.storage@.len() && #[trigger] self.storage@[i].0@ == k
    }

    /// The capacity hint the store was made with.
    pub closed spec fn capacity_target(&self) -> nat {
        self.capacity as nat
    }

    pub fn new(capacity: usize) -> (r: Self)
        ensures
            r.wf(),
            r@.dom().finite(),
            r@ == Map::<Seq<char>, RecordModel>::empty(),
            r.capacity_target() == capacity,
    {
        CacheService {
            storage: Vec::with_capacity(capacity),
            capacity,
            model: Ghost(Map::empty()),
        }
    }

    /// The position of `key` in the storage, if it is there.
    fn find(&self, key: &str) -> (r: Option<usize>)
        requires
            self.wf(),
        ensures
            r is None <==> !self@.contains_key(key@),
            r matches Some(i) ==> i < self.storage@.len() && self.storage@[i as int].0@ == key@,
    {
        let wanted = key.to_string();
        let mut i: usize = 0;
        while i < self.storage.len()
            invariant
                self.wf(),
                wanted@ == key@,
                i <= self.storage@.len(),
                forall|j: int| 0 <= j < i ==> self.storage@[j].0@ != key@,
            decreases self.storage@.len() - i,
        {
            if self.storage[i].0 == wanted {
                return Some(i);
            }
            i += 1;
        }
        None
    }

    /// The record stored under `key`, whether or not it has expired.
    pub fn get(&self, key: &str) -> (r: Option<&CacheRecord>)
        requires
            self.wf(),
        ensures
            r is Some <==> self@.contains_key(key@),
            r matches Some(rec) ==> rec@ == self@[key@],
    {
        match self.find(key) {
            Some(i) => Some(&self.storage[i].1),
            None => None,
        }
    }
    /// Stores `val` under `key` as created at `now`, replacing whatever was
    /// there.
    pub fn set_at(
        &mut self,
        key: &str,
        val: &str,
        ttl: Option<u32>,
        content_type: Option<String>,
        now: i64,
    )
        requires
            old(self).wf(),
        ensures
            final(self).wf(),
            final(self)@.dom().finite(),
            final(self).capacity_target() == old(self).capacity_target(),
            final(self)@ == old(self)@.insert(
                key@,
                fresh_record(now as int, val@, ttl_view(ttl), text_view(content_type)),
            ),
            final(self)@.len() == old(self)@.len() + if old(self)@.contains_key(key@) {
                0int
            } else {
                1int
            },
    {
        let record = CacheRecord::new(now, ttl, val.to_string(), content_type);
        let entry = (key.to_string(), record);
        let ghost k = key@;
        let ghost m = self.model@.insert(k, entry.1@);
        let ghost mut pos: int = 0;
        match self.find(key) {
            Some(i) => {
                self.storage[i] = entry;
                proof {
                    pos = i as int;
                }
            },
            None => {
                self.storage.push(entry);
                proof {
                    pos = old(self).storage@.len() as int;
                }
            },
        }
        self.model = Ghost(m);
        assert forall|k2: Seq<char>| #[trigger] self.model@.contains_key(k2) implies exists|j: int|
            0 <= j < self.storage@.len() && #[trigger] self.storage@[j].0@ == k2 by {
            if k2 != k {
                let j = choose|j: int|
                    0 <= j < old(self).storage@.len() && #[trigger] old(self).storage@[j].0@ == k2;
                assert(self.storage@[j].0@ == k2);
            } else {
                assert(self.storage@[pos].0@ == k2);
            }
        }
        assert(self.model@ =~= old(self)@.insert(
            key@,
            fresh_record(now as int, val@, ttl_view(ttl), text_view(content_type)),
        ));
    }
    /// Drops every record that is expired at `now`, then shrinks the storage
    /// back toward the capacity hint.
    pub fn gc_at(&mut self, now: i64)
        requires
            old(self).wf(),
        ensures
            final(self).wf(),
            final(self)@.dom().finite(),
            final(self).capacity_target() == old(self).capacity_target(),
            final(self)@ == swept(old(self)@, now as int),
    {
        let ghost s0 = self.storage@;
        let ghost m0 = self.model@;
        let ghost n = s0.len() as int;
        let ghost t = now as int;
        let mut rest: Vec<(String, CacheRecord)> = Vec::new();
        std::mem::swap(&mut rest, &mut self.storage);
        let mut kept: Vec<(String, CacheRecord)> = Vec::new();
        // `idx[a]` is where `kept[a]` came from; `slot[j]` is where a live
        // `s0[j]` went.
        let ghost mut idx: Seq<int> = Seq::empty();
        let ghost mut slot: Seq<int> = Seq::new(n as nat, |j: int| 0int);
        while rest.len() > 0
            invariant
                s0 == old(self).storage@,
                m0 == old(self).model@,
                n == s0.len(),
                t == now as int,
                old(self).wf(),
                rest@.len() <= n,
                rest@ == s0.subrange(0, rest@.len() as int),
                idx.len() == kept@.len(),
                slot.len() == n,
                forall|a: int|
                    #![trigger kept@[a]]
                    #![trigger idx[a]]
                    0 <= a < kept@.len() ==> rest@.len() <= idx[a] < n && kept@[a] == s0[idx[a]]
                        && !kept@[a].1@.expired_at(t),
                forall|a: int, b: int| 0 <= a < b < idx.len() ==> #[trigger] idx[a] > #[trigger] idx[b],
                forall|j: int|
                    #![trigger slot[j]]
                    rest@.len() <= j < n && !s0[j].1@.expired_at(t) ==> 0 <= slot[j] < kept@.len()
                        && kept@[slot[j]] == s0[j],
            decreases rest@.len(),
        {
            let ghost prev = rest@;
            let entry = rest.pop().unwrap();
            let ghost i = rest@.len() as int;
            assert(prev[i] == s0[i]);
            assert(rest@ =~= s0.subrange(0, i));
            if !entry.1.is_expired_at(now) {
                let ghost before = kept@;
                let ghost idx0 = idx;
                proof {
                    slot = slot.update(i, kept@.len() as int);
                    idx = idx.push(i);
                }
                kept.push(entry);
                assert forall|a: int| #![trigger kept@[a]] 0 <= a < kept@.len() implies i <= idx[a]
                    < n && kept@[a] == s0[idx[a]] && !kept@[a].1@.expired_at(t) by {
                    if a < before.len() {
                        assert(kept@[a] == before[a]);
                        assert(idx[a] == idx0[a]);
                    }
                }
                assert forall|a: int, b: int| 0 <= a < b < idx.len() implies #[trigger] idx[a]
                    > #[trigger] idx[b] by {
                    assert(idx[a] == idx0[a]);
                    if b < idx0.len() {
                        assert(idx[b] == idx0[b]);
                    } else {
                        assert(before[a] == kept@[a]);
                    }
                }
            } else {
                assert forall|a: int| #![trigger kept@[a]] 0 <= a < kept@.len() implies i <= idx[a]
                    < n && kept@[a] == s0[idx[a]] && !kept@[a].1@.expired_at(t) by {
                    assert(i + 1 <= idx[a]);
                }
            }
        }
        let ghost m1 = swept(m0, t);
        assert(m1.dom() =~= m0.dom().intersect(m0.dom().filter(|k: Seq<char>| !m0[k].expired_at(t))));
        assert forall|a: int, b: int|
            0 <= a < b < kept@.len() implies #[trigger] kept@[a].0@ != #[trigger] kept@[b].0@ by {
            assert(idx[a] > idx[b]);
        }
        assert forall|k: Seq<char>| #[trigger] m1.contains_key(k) implies exists|a: int|
            0 <= a < kept@.len() && #[trigger] kept@[a].0@ == k by {
            let j = choose|j: int| 0 <= j < n && #[trigger] s0[j].0@ == k;
            assert(!s0[j].1@.expired_at(t));
            assert(kept@[slot[j]].0@ == k);
        }
        assert forall|a: int| 0 <= a < kept@.len() implies m1.contains_key(
            #[trigger] kept@[a].0@,
        ) && m1[kept@[a].0@] == kept@[a].1@ by {
            assert(m0.contains_key(s0[idx[a]].0@));
        }
        let ghost kv = kept@;
        self.storage = kept;
        self.model = Ghost(m1);
        assert(self.model@ =~= swept(old(self)@, t));
        shrink_storage(&mut self.storage, self.capacity);
        assert(self.storage@ == kv);
    }
    /// Stores `val` under `key`, created now by the wall clock, replacing
    /// whatever was there.
    pub fn set(&mut self, key: &str, val: &str, ttl: Option<u32>, content_type: Option<String>)
        requires
            old(self).wf(),
        ensures
            final(self).wf(),
            final(self)@.dom().finite(),
            final(self).capacity_target() == old(self).capacity_target(),
            final(self)@.contains_key(key@),
            final(self)@ == old(self)@.insert(key@, final(self)@[key@]),
            final(self)@.len() == old(self)@.len() + if old(self)@.contains_key(key@) {
                0int
            } else {
                1int
            },
            final(self)@[key@] == fresh_record(
                final(self)@[key@].created,
                val@,
                ttl_view(ttl),
                text_view(content_type),
            ),
    {
        let now = now_millis();
        self.set_at(key, val, ttl, content_type, now);
    }

    /// Drops every record that is expired by the wall clock, then shrinks the
    /// storage back toward the capacity hint.
    pub fn gc(&mut self)
        requires
            old(self).wf(),
        ensures
            final(self).wf(),
            final(self)@.dom().finite(),
            final(self).capacity_target() == old(self).capacity_target(),
            exists|t: int| final(self)@ == #[trigger] swept(old(self)@, t),
    {
        let now = now_millis();
        self.gc_at(now);
        assert(self@ == swept(old(self)@, now as int));
    }

    /// What a reader of `key` is served at `now`: the payload, its content
    /// type (plain text where none was given) and its age in seconds; nothing
    /// where the key is absent or its record has expired.
    pub fn fetch_at(&self, key: &str, now: i64) -> (r: Option<CacheHit>)
        requires
            self.wf(),
        ensures
            r is Some <==> self@.contains_key(key@) && !self@[key@].expired_at(now as int),
            r matches Some(h) ==> {
                &&& h.content@ == self@[key@].content
                &&& h.content_type@ == served_type(self@[key@])
                &&& h.age == self@[key@].age_at(now as int)
            },
    {
        match self.get(key) {
            Some(record) => match record.get_at(now) {
                Some(content) => {
                    let content_type = match record.get_content_type() {
                        Some(t) => t.clone(),
                        None => "text/plain".to_string(),
                    };
                    Some(CacheHit { content: content.clone(), content_type, age: record.get_age_at(now) })
                },
                None => None,
            },
            None => None,
        }
    }

    /// What a reader of `key` is served now, by the wall clock.
    pub fn fetch(&self, key: &str) -> (r: Option<CacheHit>)
        requires
            self.wf(),
        ensures
            exists|t: int| #[trigger] served_at(self@, key@, t, r),
            self@.contains_key(key@) && self@[key@].ttl is None ==> r is Some,
    {
        let now = now_millis();
        let r = self.fetch_at(key, now);
        assert(served_at(self@, key@, now as int, r));
        r
    }
}

} // verus!

verus! {

/// A write followed at once by a read of the same key gives back exactly the
/// payload and content type written, at age zero, whatever the time-to-live.
pub proof fn lemma_round_trip(
    m: Map<Seq<char>, RecordModel>,
    key: Seq<char>,
    content: Seq<char>,
    ttl: Option<nat>,
    content_type: Option<Seq<char>>,
    now: int,
)
    ensures
        ({
            let r = m.insert(key, fresh_record(now, content, ttl, content_type))[key];
            &&& r.value_at(now) == Some(content)
            &&& r.content_type == content_type
            &&& r.age_at(now) == 0
        }),
{
}

/// Of two writes to one key, a later read sees the second payload only.
pub proof fn lemma_overwrite(
    m: Map<Seq<char>, RecordModel>,
    key: Seq<char>,
    first: RecordModel,
    second: RecordModel,
)
    ensures
        m.insert(key, first).insert(key, second) == m.insert(key, second),
        m.insert(key, first).insert(key, second)[key].content == second.content,
{
    assert(m.insert(key, first).insert(key, second) =~= m.insert(key, second));
}

/// A sweep keeps exactly the keys whose records are live at the sweep's
/// instant, with their records unchanged; no live record is removed.
pub proof fn lemma_sweep_correct(m: Map<Seq<char>, RecordModel>, now: int)
    ensures
        forall|k: Seq<char>|
            #[trigger] swept(m, now).contains_key(k) <==> m.contains_key(k) && !m[k].expired_at(now),
        forall|k: Seq<char>| #[trigger] swept(m, now).contains_key(k) ==> swept(m, now)[k] == m[k],
        swept(m, now).submap_of(m),
{
}

/// Sweeping again, at the same instant or later, gives what one sweep at the
/// later instant gives; in particular a second sweep at the same instant
/// changes nothing.
pub proof fn lemma_sweep_idempotent(m: Map<Seq<char>, RecordModel>, first: int, second: int)
    requires
        first <= second,
    ensures
        swept(swept(m, first), second) == swept(m, second),
        swept(swept(m, first), first) == swept(m, first),
{
    assert(swept(swept(m, first), second) =~= swept(m, second));
    assert(swept(swept(m, first), first) =~= swept(m, first));
}

} // verus!
