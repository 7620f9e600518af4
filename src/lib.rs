//! An in-memory key/value cache: records with an optional time-to-live, a
//! store keyed by the external key string, and the sweep that drops expired
//! records.

mod clock;
mod payload;
mod record;
mod store;

pub use payload::{decode_payload, PayloadError, MAX_BODY_BYTES};
pub use record::{
    age_seconds, lemma_expiration, lemma_no_ttl_never_expires, text_view, ttl_view, CacheRecord,
    RecordModel,
};
pub use store::{
    fresh_record, lemma_overwrite, lemma_round_trip, lemma_sweep_correct, lemma_sweep_idempotent,
    served_at, served_type, swept, CacheHit, CacheService,
};
