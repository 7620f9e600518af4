use crate::clock::now_millis;
use vstd::prelude::*;

verus! {

/// Whole seconds elapsed from `created` to `now` (both in milliseconds),
/// truncated toward zero; negative when `now` lies before `created`.
pub open spec fn age_seconds(created: int, now: int) -> int {
    if now >= created {
        (now - created) / 1000
    } else {
        -((created - now) / 1000)
    }
}

/// What a record holds: its creation time in milliseconds since the epoch,
/// its time-to-live in seconds, its payload and its content type.
pub struct RecordModel {
    pub created: int,
    pub ttl: Option<nat>,
    pub content: Seq<char>,
    pub content_type: Option<Seq<char>>,
}

impl RecordModel {
    /// A record is expired once its time-to-live has fully passed.
    pub open spec fn expired_at(self, now: int) -> bool {
        match self.ttl {
            Some(t) => self.created + t * 1000 < now,
            None => false,
        }
    }

    /// The payload a reader sees at time `now`.
    pub open spec fn value_at(self, now: int) -> Option<Seq<char>> {
        if self.expired_at(now) {
            None
        } else {
            Some(self.content)
        }
    }

    pub open spec fn age_at(self, now: int) -> int {
        age_seconds(self.created, now)
    }
}

pub open spec fn ttl_view(ttl: Option<u32>) -> Option<nat> {
    match ttl {
        Some(t) => Some(t as nat),
        None => None,
    }
}

pub open spec fn text_view(s: Option<String>) -> Option<Seq<char>> {
    match s {
        Some(t) => Some(t@),
        None => None,
    }
}

/// One cached value with its expiration metadata. It is never changed after
/// creation; a new write replaces it whole.
pub struct CacheRecord {
    created: i64,
    expires: Option<u32>,
    content: String,
    content_type: Option<String>,
}

impl View for CacheRecord {
    type V = RecordModel;

    closed spec fn view(&self) -> RecordModel {
        RecordModel {
            created: self.created as int,
            ttl: ttl_view(self.expires),
            content: self.content@,
            content_type: text_view(self.content_type),
        }
    }
}

impl CacheRecord {
    /// A record created at `created` (milliseconds since the epoch).
    pub fn new(created: i64, ttl: Option<u32>, content: String, content_type: Option<String>) -> (r:
        Self)
        ensures
            r@ == (RecordModel {
                created: created as int,
                ttl: ttl_view(ttl),
                content: content@,
                content_type: text_view(content_type),
            }),
    {
        CacheRecord { created, expires: ttl, content, content_type }
    }

    /// Whether the record is expired at `now` (milliseconds since the epoch).
    pub fn is_expired_at(&self, now: i64) -> (r: bool)
        ensures
            r == self@.expired_at(now as int),
    {
        match self.expires {
            Some(ttl) => (self.created as i128) + (ttl as i128) * 1000 < (now as i128),
            None => false,
        }
    }

    /// The payload as seen at `now`: absent once the record has expired.
    pub fn get_at(&self, now: i64) -> (r: Option<&String>)
        ensures
            r is Some <==> self@.value_at(now as int) is Some,
            r matches Some(s) ==> self@.value_at(now as int) == Some(s@),
    {
        if self.is_expired_at(now) {
            None
        } else {
            Some(&self.content)
        }
    }

    /// The payload as seen now, by the wall clock.
    pub fn get(&self) -> (r: Option<&String>)
        ensures
            r matches Some(s) ==> s@ == self@.content,
            self@.ttl is None ==> r is Some,
            exists|t: int| #[trigger] self@.value_at(t) == match r {
                Some(s) => Some(s@),
                None => None::<Seq<char>>,
            },
    {
        let now = now_millis();
        let r = self.get_at(now);
        assert(self@.value_at(now as int) == match r {
            Some(s) => Some(s@),
            None => None::<Seq<char>>,
        });
        r
    }

    pub fn get_content_type(&self) -> (r: Option<&String>)
        ensures
            r is Some <==> self@.content_type is Some,
            r matches Some(s) ==> self@.content_type == Some(s@),
    {
        self.content_type.as_ref()
    }

    /// Whole seconds since creation as of `now`, truncated toward zero.
    pub fn get_age_at(&self, now: i64) -> (r: i64)
        ensures
            r == self@.age_at(now as int),
    {
        let diff: i128 = (now as i128) - (self.created as i128);
        if diff >= 0 {
            assert(diff / 1000 <= diff) by (nonlinear_arith)
                requires
                    diff >= 0,
            ;
            (diff / 1000) as i64
        } else {
            let back: i128 = -diff;
            assert(back / 1000 <= back) by (nonlinear_arith)
                requires
                    back >= 0,
            ;
            assert(back / 1000 <= 9223372036854775807i128);
            -((back / 1000) as i64)
        }
    }

    /// Whole seconds since creation as of the wall clock.
    pub fn get_age(&self) -> (r: i64)
        ensures
            exists|t: int| #[trigger] self@.age_at(t) == r,
    {
        let now = now_millis();
        let r = self.get_age_at(now);
        assert(self@.age_at(now as int) == r);
        r
    }
}

/// A record that was given a time-to-live hides its payload from every read
/// after its deadline, `created + ttl` seconds, and shows it to every read
/// before. At the deadline itself it is still live.
pub proof fn lemma_expiration(r: RecordModel, now: int)
    requires
        r.ttl is Some,
    ensures
        now > r.created + r.ttl->0 * 1000 ==> r.value_at(now) is None,
        now <= r.created + r.ttl->0 * 1000 ==> r.value_at(now) == Some(r.content),
{
}

/// A record without a time-to-live never expires, however much time passes.
pub proof fn lemma_no_ttl_never_expires(r: RecordModel)
    requires
        r.ttl is None,
    ensures
        forall|now: int| !#[trigger] r.expired_at(now) && r.value_at(now) == Some(r.content),
{
}

} // verus!
